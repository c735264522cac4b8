use vstd::prelude::*;
use crate::scanner::{ChapterItem, MangaItem, has_archive_spec};
use crate::mode::ReaderMode;
use crate::text::{copy_str, same_text};

verus! {

/// Position of the last chapter whose path is `path`.
pub open spec fn chapter_position(chapters: Seq<ChapterItem>, path: Seq<char>) -> Option<int>
    decreases chapters.len(),
{
    if chapters.len() == 0 {
        None
    } else if chapters.last().path@ == path {
        Some(chapters.len() - 1)
    } else {
        chapter_position(chapters.drop_last(), path)
    }
}

/// Position of the first title that holds the archive `path`.
pub open spec fn manga_position(list: Seq<MangaItem>, path: Seq<char>) -> Option<int>
    decreases list.len(),
{
    if list.len() == 0 {
        None
    } else if has_archive_spec(list[0].archives@, path) {
        Some(0)
    } else {
        match manga_position(list.drop_first(), path) {
            Some(i) => Some(i + 1),
            None => None,
        }
    }
}

pub proof fn lemma_chapter_position(chapters: Seq<ChapterItem>, path: Seq<char>)
    ensures
        match chapter_position(chapters, path) {
            Some(i) => 0 <= i < chapters.len() && chapters[i].path@ == path && forall|k: int|
                i < k < chapters.len() ==> (#[trigger] chapters[k]).path@ != path,
            None => forall|k: int| 0 <= k < chapters.len() ==> (#[trigger] chapters[k]).path@ != path,
        },
    decreases chapters.len(),
{
    if chapters.len() > 0 && chapters.last().path@ != path {
        lemma_chapter_position(chapters.drop_last(), path);
        assert forall|k: int| 0 <= k < chapters.len() - 1 implies chapters[k] == chapters.drop_last()[k] by {}
    }
}

/// Position of the first title with the identifier `id`.
pub open spec fn id_position(list: Seq<MangaItem>, id: u64) -> Option<int>
    decreases list.len(),
{
    if list.len() == 0 {
        None
    } else if list[0].id == id {
        Some(0)
    } else {
        match id_position(list.drop_first(), id) {
            Some(i) => Some(i + 1),
            None => None,
        }
    }
}

/// The reading mode used for the chapter at `path`: the one of the first
/// title holding it, else manga.
pub open spec fn mode_for_archive_spec(list: Seq<MangaItem>, path: Seq<char>) -> ReaderMode {
    match manga_position(list, path) {
        Some(i) => list[i].effective_mode_spec(),
        None => ReaderMode::Manga,
    }
}

/// The path of the chapter after the one at `path`.
pub open spec fn next_path_spec(chapters: Seq<ChapterItem>, path: Seq<char>) -> Option<Seq<char>> {
    match chapter_position(chapters, path) {
        Some(i) => if i + 1 < chapters.len() {
            Some(chapters[i + 1].path@)
        } else {
            None
        },
        None => None,
    }
}

/// The path of the chapter before the one at `path`.
pub open spec fn prev_path_spec(chapters: Seq<ChapterItem>, path: Seq<char>) -> Option<Seq<char>> {
    match chapter_position(chapters, path) {
        Some(i) => if i > 0 {
            Some(chapters[i - 1].path@)
        } else {
            None
        },
        None => None,
    }
}

/// No two chapters share a path.
pub open spec fn distinct_paths(chapters: Seq<ChapterItem>) -> bool {
    forall|a: int, b: int| 0 <= a < b < chapters.len() ==> (#[trigger] chapters[a]).path@ != (#[trigger] chapters[b]).path@
}

proof fn lemma_position_of_index(chapters: Seq<ChapterItem>, k: int)
    requires
        distinct_paths(chapters),
        0 <= k < chapters.len(),
    ensures
        chapter_position(chapters, chapters[k].path@) == Some(k),
{
    let q = chapters[k].path@;
    lemma_chapter_position(chapters, q);
    match chapter_position(chapters, q) {
        Some(j) => {
            if j < k {
                assert(chapters[k].path@ != q);
            } else if j > k {
                assert(chapters[k].path@ != chapters[j].path@);
            }
        },
        None => {
            assert(chapters[k].path@ != q);
        },
    }
}

/// In a chapter list without repeated paths, the next chapter's previous
/// chapter is the chapter itself, and the previous chapter's next one too.
pub proof fn lemma_next_prev_inverse(chapters: Seq<ChapterItem>, path: Seq<char>)
    requires
        distinct_paths(chapters),
    ensures
        next_path_spec(chapters, path) matches Some(q) ==> prev_path_spec(chapters, q) == Some(path),
        prev_path_spec(chapters, path) matches Some(q) ==> next_path_spec(chapters, q) == Some(path),
{
    lemma_chapter_position(chapters, path);
    match chapter_position(chapters, path) {
        Some(i) => {
            if i + 1 < chapters.len() {
                lemma_position_of_index(chapters, i + 1);
            }
            if i > 0 {
                lemma_position_of_index(chapters, i - 1);
            }
        },
        None => {},
    }
}

/// The titles found in the library, and the chapters of the open title.
pub struct LibraryState {
    pub manga_list: Vec<MangaItem>,
    pub chapters: Vec<ChapterItem>,
    pub current_manga_idx: Option<u64>,
}

impl LibraryState {
    /// An empty library.
    pub fn new() -> (r: Self)
        ensures
            r.manga_list@.len() == 0,
            r.chapters@.len() == 0,
            r.current_manga_idx is None,
    {
        LibraryState { manga_list: Vec::new(), chapters: Vec::new(), current_manga_idx: None }
    }

    /// Replaces the chapter list.
    pub fn set_chapters(&mut self, chapters: Vec<ChapterItem>)
        ensures
            final(self).chapters@ == chapters@,
            final(self).manga_list@ == old(self).manga_list@,
            final(self).current_manga_idx == old(self).current_manga_idx,
    {
        self.chapters = chapters;
    }

    /// Forgets the chapter list.
    pub fn clear_chapters(&mut self)
        ensures
            final(self).chapters@.len() == 0,
            final(self).manga_list@ == old(self).manga_list@,
            final(self).current_manga_idx == old(self).current_manga_idx,
    {
        self.chapters.clear();
    }

    /// The position of the chapter at `path` (the last one, should two
    /// chapters share a path).
    pub fn chapter_index(&self, path: &str) -> (r: Option<usize>)
        ensures
            match r {
                Some(i) => chapter_position(self.chapters@, path@) == Some(i as int) && i
                    < self.chapters.len(),
                None => chapter_position(self.chapters@, path@) is None,
            },
    {
        proof {
            lemma_chapter_position(self.chapters@, path@);
        }
        let mut k = self.chapters.len();
        assert(self.chapters@.subrange(0, k as int) =~= self.chapters@);
        while k > 0
            invariant
                k <= self.chapters.len(),
                chapter_position(self.chapters@, path@) == chapter_position(
                    self.chapters@.subrange(0, k as int),
                    path@,
                ),
            decreases k,
        {
            if same_text(self.chapters[k - 1].path.as_str(), path) {
                return Some(k - 1);
            }
            assert(self.chapters@.subrange(0, k as int).drop_last() =~= self.chapters@.subrange(
                0,
                k - 1,
            ));
            k -= 1;
        }
        None
    }

    /// The first title that holds the archive at `archive_path`.
    pub fn manga_for_archive(&self, archive_path: &str) -> (r: Option<&MangaItem>)
        ensures
            match manga_position(self.manga_list@, archive_path@) {
                Some(i) => r == Some(&self.manga_list@[i]),
                None => r is None,
            },
    {
        let mut i: usize = 0;
        assert(self.manga_list@.skip(0) =~= self.manga_list@);
        while i < self.manga_list.len()
            invariant
                0 <= i <= self.manga_list.len(),
                manga_position(self.manga_list@, archive_path@) == match manga_position(
                    self.manga_list@.skip(i as int),
                    archive_path@,
                ) {
                    Some(k) => Some(k + i),
                    None => None,
                },
            decreases self.manga_list.len() - i,
        {
            assert(self.manga_list@.skip(i as int)[0] == self.manga_list@[i as int]);
            if self.manga_list[i].has_archive(archive_path) {
                return Some(&self.manga_list[i]);
            }
            assert(self.manga_list@.skip(i as int).drop_first() =~= self.manga_list@.skip(i + 1));
            i += 1;
        }
        None
    }

    /// Whether the chapter at `archive_path` is the last chapter: true
    /// exactly when the chapter list ends with a chapter at that path.
    pub fn is_last_chapter(&self, archive_path: &str) -> (r: bool)
        ensures
            r == (self.chapters@.len() > 0 && self.chapters@.last().path@ == archive_path@),
    {
        proof {
            lemma_chapter_position(self.chapters@, archive_path@);
        }
        match self.chapter_index(archive_path) {
            Some(i) => i + 1 >= self.chapters.len(),
            None => false,
        }
    }

    /// The path of the chapter after the one at `archive_path`.
    pub fn next_chapter_path(&self, archive_path: &str) -> (r: Option<String>)
        ensures
            match r {
                Some(p) => next_path_spec(self.chapters@, archive_path@) == Some(p@),
                None => next_path_spec(self.chapters@, archive_path@) is None,
            },
    {
        match self.chapter_index(archive_path) {
            Some(i) => {
                if i + 1 < self.chapters.len() {
                    Some(copy_str(self.chapters[i + 1].path.as_str()))
                } else {
                    None
                }
            },
            None => None,
        }
    }

    /// The path of the chapter before the one at `archive_path`.
    pub fn prev_chapter_path(&self, archive_path: &str) -> (r: Option<String>)
        ensures
            match r {
                Some(p) => prev_path_spec(self.chapters@, archive_path@) == Some(p@),
                None => prev_path_spec(self.chapters@, archive_path@) is None,
            },
    {
        match self.chapter_index(archive_path) {
            Some(i) => {
                if i > 0 {
                    Some(copy_str(self.chapters[i - 1].path.as_str()))
                } else {
                    None
                }
            },
            None => None,
        }
    }

    /// The reading mode for the chapter at `archive_path`.
    pub fn mode_for_archive(&self, archive_path: &str) -> (r: ReaderMode)
        ensures
            r == mode_for_archive_spec(self.manga_list@, archive_path@),
    {
        match self.manga_for_archive(archive_path) {
            Some(m) => m.effective_mode(),
            None => ReaderMode::Manga,
        }
    }

    /// Position of the first title with the identifier `id`.
    fn find_id(&self, id: u64) -> (r: Option<usize>)
        ensures
            r matches Some(i) ==> i < self.manga_list@.len(),
            match id_position(self.manga_list@, id) {
                Some(i) => r matches Some(k) && k == i && 0 <= i < self.manga_list@.len(),
                None => r is None,
            },
    {
        let mut i: usize = 0;
        assert(self.manga_list@.skip(0) =~= self.manga_list@);
        while i < self.manga_list.len()
            invariant
                0 <= i <= self.manga_list.len(),
                id_position(self.manga_list@, id) == match id_position(self.manga_list@.skip(i as int), id) {
                    Some(k) => Some(k + i),
                    None => None,
                },
            decreases self.manga_list.len() - i,
        {
            assert(self.manga_list@.skip(i as int)[0] == self.manga_list@[i as int]);
            if self.manga_list[i].id == id {
                return Some(i);
            }
            assert(self.manga_list@.skip(i as int).drop_first() =~= self.manga_list@.skip(i + 1));
            i += 1;
        }
        None
    }

    /// Sets by hand the reading mode of the first title with identifier
    /// `id` (`None`: back to the detected one).  Returns whether there is
    /// such a title; nothing else changes.
    #[verifier::spinoff_prover]
    pub fn set_manga_mode(&mut self, id: u64, mode: Option<ReaderMode>) -> (r: bool)
        ensures
            r == id_position(old(self).manga_list@, id) is Some,
            match id_position(old(self).manga_list@, id) {
                Some(i) => final(self).manga_list@ == old(self).manga_list@.update(
                    i,
                    MangaItem { manual_mode: mode, ..old(self).manga_list@[i] },
                ),
                None => final(self).manga_list@ == old(self).manga_list@,
            },
            final(self).chapters@ == old(self).chapters@,
            final(self).current_manga_idx == old(self).current_manga_idx,
    {
        match self.find_id(id) {
            Some(i) => {
                let ghost l0 = self.manga_list@;
                assert(id_position(l0, id) == Some(i as int));
                let ghost target = MangaItem { manual_mode: mode, ..l0[i as int] };
                let mut m = self.manga_list.remove(i);
                m.manual_mode = mode;
                assert(m == target);
                self.manga_list.insert(i, m);
                assert(self.manga_list@ =~= l0.update(i as int, target));
                true
            },
            None => false,
        }
    }

    /// Sets by hand the reading direction of the first title with
    /// identifier `id`.  Returns whether there is such a title.
    pub fn set_manga_rtl(&mut self, id: u64, rtl: bool) -> (r: bool)
        ensures
            r == id_position(old(self).manga_list@, id) is Some,
            match id_position(old(self).manga_list@, id) {
                Some(i) => final(self).manga_list@ == old(self).manga_list@.update(
                    i,
                    MangaItem { manual_rtl: Some(rtl), ..old(self).manga_list@[i] },
                ),
                None => final(self).manga_list@ == old(self).manga_list@,
            },
            final(self).chapters@ == old(self).chapters@,
            final(self).current_manga_idx == old(self).current_manga_idx,
    {
        match self.find_id(id) {
            Some(i) => {
                let ghost l0 = self.manga_list@;
                let mut m = self.manga_list.remove(i);
                m.manual_rtl = Some(rtl);
                assert(m == MangaItem { manual_rtl: Some(rtl), ..l0[i as int] });
                self.manga_list.insert(i, m);
                assert(self.manga_list@ =~= l0.update(i as int, MangaItem { manual_rtl: Some(rtl), ..l0[i as int] }));
                true
            },
            None => false,
        }
    }

    /// The chapter to load for a switch from the chapter at `archive_path`
    /// (the next one when `forward`, else the previous one), when the
    /// loader of that direction is idle.
    pub fn request_switch(&self, archive_path: &str, forward: bool, loader_idle: bool) -> (r: Option<String>)
        ensures
            match r {
                Some(p) => loader_idle && (if forward {
                    next_path_spec(self.chapters@, archive_path@)
                } else {
                    prev_path_spec(self.chapters@, archive_path@)
                }) == Some(p@),
                None => !loader_idle || (if forward {
                    next_path_spec(self.chapters@, archive_path@)
                } else {
                    prev_path_spec(self.chapters@, archive_path@)
                }) is None,
            },
    {
        let neighbor = if forward {
            self.next_chapter_path(archive_path)
        } else {
            self.prev_chapter_path(archive_path)
        };
        match neighbor {
            Some(p) => if loader_idle {
                Some(p)
            } else {
                None
            },
            None => None,
        }
    }
}

/// The reading settings stored for a title: its directory, the mode and
/// direction chosen by hand, and those detected.
pub struct TitleSettings {
    pub directory: String,
    pub manual_mode: Option<ReaderMode>,
    pub auto_mode: Option<ReaderMode>,
    pub manual_rtl: Option<bool>,
    pub auto_rtl: Option<bool>,
}

/// The position of the first stored settings for the directory `dir`.
pub open spec fn first_settings(s: Seq<TitleSettings>, dir: Seq<char>) -> Option<int>
    decreases s.len(),
{
    if s.len() == 0 {
        None
    } else {
        match first_settings(s.drop_last(), dir) {
            Some(k) => Some(k),
            None => if s.last().directory@ == dir {
                Some(s.len() - 1)
            } else {
                None
            },
        }
    }
}

/// The title `m` with the settings stored for its directory, when there
/// are any (the first stored for it).
pub open spec fn with_settings(m: MangaItem, s: Seq<TitleSettings>) -> MangaItem {
    match first_settings(s, m.directory@) {
        Some(k) => MangaItem {
            manual_mode: s[k].manual_mode,
            auto_mode: s[k].auto_mode,
            manual_rtl: s[k].manual_rtl,
            auto_rtl: s[k].auto_rtl,
            ..m
        },
        None => m,
    }
}

proof fn lemma_first_settings_bound(s: Seq<TitleSettings>, dir: Seq<char>)
    ensures
        first_settings(s, dir) matches Some(k) ==> 0 <= k < s.len() && s[k].directory@ == dir,
    decreases s.len(),
{
    if s.len() > 0 {
        lemma_first_settings_bound(s.drop_last(), dir);
    }
}

fn find_settings(s: &Vec<TitleSettings>, dir: &str) -> (r: Option<usize>)
    ensures
        match r {
            Some(k) => first_settings(s@, dir@) == Some(k as int) && k < s@.len(),
            None => first_settings(s@, dir@) is None,
        },
{
    let mut i: usize = 0;
    while i < s.len()
        invariant
            0 <= i <= s@.len(),
            first_settings(s@.subrange(0, i as int), dir@) is None,
        decreases s@.len() - i,
    {
        let ghost sub = s@.subrange(0, i + 1);
        assert(sub.drop_last() =~= s@.subrange(0, i as int));
        if same_text(s[i].directory.as_str(), dir) {
            proof {
                lemma_first_settings_prefix(s@, i as int + 1, dir@);
            }
            return Some(i);
        }
        i += 1;
    }
    assert(s@.subrange(0, s@.len() as int) =~= s@);
    None
}

proof fn lemma_first_settings_prefix(s: Seq<TitleSettings>, n: int, dir: Seq<char>)
    requires
        0 <= n <= s.len(),
        first_settings(s.subrange(0, n), dir) is Some,
    ensures
        first_settings(s, dir) == first_settings(s.subrange(0, n), dir),
    decreases s.len() - n,
{
    if n < s.len() {
        assert(s.subrange(0, n + 1).drop_last() =~= s.subrange(0, n));
        lemma_first_settings_prefix(s, n + 1, dir);
    } else {
        assert(s.subrange(0, n) =~= s);
    }
}

/// The scanned titles `list` with the reading settings stored for their
/// directories put back: each title found among `settings` takes the
/// modes and directions stored first for it; the others stay as scanned.
pub fn merge_title_settings(list: Vec<MangaItem>, settings: &Vec<TitleSettings>) -> (r: Vec<MangaItem>)
    ensures
        r@.len() == list@.len(),
        forall|i: int| 0 <= i < list@.len() ==> #[trigger] r@[i] == with_settings(list@[i], settings@),
{
    let ghost orig = list@;
    let mut rest = list;
    let mut out: Vec<MangaItem> = Vec::new();
    while rest.len() > 0
        invariant
            out@.len() + rest@.len() == orig.len(),
            rest@ == orig.skip(out@.len() as int),
            forall|i: int| 0 <= i < out@.len() ==> #[trigger] out@[i] == with_settings(orig[i], settings@),
        decreases rest@.len(),
    {
        let ghost j = out@.len() as int;
        let mut m = rest.remove(0);
        assert(orig.skip(out@.len() as int)[0] == orig[out@.len() as int]);
        assert(m == orig[j]);
        assert(rest@ =~= orig.skip(out@.len() as int + 1));
        proof {
            lemma_first_settings_bound(settings@, m.directory@);
        }
        match find_settings(settings, m.directory.as_str()) {
            Some(k) => {
                m.manual_mode = settings[k].manual_mode;
                m.auto_mode = settings[k].auto_mode;
                m.manual_rtl = settings[k].manual_rtl;
                m.auto_rtl = settings[k].auto_rtl;
                assert(first_settings(settings@, orig[j].directory@) == Some(k as int));
                assert(m == MangaItem {
                    manual_mode: settings@[k as int].manual_mode,
                    auto_mode: settings@[k as int].auto_mode,
                    manual_rtl: settings@[k as int].manual_rtl,
                    auto_rtl: settings@[k as int].auto_rtl,
                    ..orig[j]
                });
            },
            None => {},
        }
        assert(m == with_settings(orig[j], settings@));
        out.push(m);
    }
    out
}

} // verus!
