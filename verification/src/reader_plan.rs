use vstd::prelude::*;
use crate::app_state::NavigationLevel;
use crate::chapter::{is_at_chapter_end, stepped, step_page, SwitchState, SwitchStatus};
use crate::library::{LibraryState, next_path_spec, prev_path_spec};
use crate::mode::ReaderMode;
use crate::reader_input::{at_chapter_edge, key_forward, key_forward_spec, NavKey};
use crate::text::{copy_str, same_text};
use crate::scanner::ChapterItem;

verus! {

/// What a page-turning key does while a chapter is read page by page.
#[derive(Clone, Copy, Debug, PartialEq, Eq, Structural)]
pub enum PageKeyAction {
    /// Go to the next chapter (`true`) or the previous one: take it when it
    /// is loaded, else ask for it.
    LeaveChapter(bool),
    /// Animate a single page turn from the page, forward or back.
    FlipSingle(usize, bool),
    /// Animate a spread turn from the page, forward or back.
    FlipSpread(usize, bool),
    /// Show that page.
    GoTo(usize),
    /// Nothing to do.
    Stay,
}

/// What the key `key` does on page `page_index` of a chapter of `total`
/// pages read in `mode`; `at_final_spread` tells whether the two-page
/// layout shows its last spread.
pub open spec fn key_action_spec(
    key: NavKey,
    rtl: bool,
    mode: ReaderMode,
    page_index: usize,
    total: usize,
    at_final_spread: bool,
) -> PageKeyAction {
    let forward = key_forward_spec(key, rtl);
    let at_edge = if mode == ReaderMode::Webtoon {
        false
    } else if forward {
        if mode == ReaderMode::Double {
            at_final_spread
        } else {
            page_index + 1 >= total
        }
    } else {
        page_index == 0
    };
    if at_edge {
        PageKeyAction::LeaveChapter(forward)
    } else {
        match mode {
            ReaderMode::Manga => PageKeyAction::FlipSingle(page_index, forward),
            ReaderMode::Double => PageKeyAction::FlipSpread(page_index, forward),
            ReaderMode::Webtoon => match stepped(page_index, total, mode, forward) {
                Some(n) => PageKeyAction::GoTo(n),
                None => PageKeyAction::Stay,
            },
        }
    }
}

/// What a page-turning key does on the page shown.
pub fn key_action(
    key: NavKey,
    rtl: bool,
    mode: ReaderMode,
    page_index: usize,
    total: usize,
    at_final_spread: bool,
) -> (r: PageKeyAction)
    ensures
        r == key_action_spec(key, rtl, mode, page_index, total, at_final_spread),
{
    let forward = key_forward(key, rtl);
    if at_chapter_edge(page_index, total, mode, forward, at_final_spread) {
        PageKeyAction::LeaveChapter(forward)
    } else {
        match mode {
            ReaderMode::Manga => PageKeyAction::FlipSingle(page_index, forward),
            ReaderMode::Double => PageKeyAction::FlipSpread(page_index, forward),
            ReaderMode::Webtoon => match step_page(page_index, total, mode, forward) {
                Some(n) => PageKeyAction::GoTo(n),
                None => PageKeyAction::Stay,
            },
        }
    }
}

/// What leaving the chapter at its edge came to.
pub enum LeaveOutcome<D> {
    /// The neighbouring chapter was loaded already and is taken.
    Switched(D),
    /// The neighbouring chapter at that path is to be loaded.
    Requested(String),
    /// Nothing to do: there is no neighbour, or its loader is busy or
    /// holds an error.
    Nothing,
}

/// What leaving the chapter at `path` of `chapters` in the direction
/// `forward` does, when the loader of that direction stood at `before` and
/// stands at `after` afterwards: a loaded neighbour is taken first; only
/// when none is ready, and the loader is idle, the neighbour is requested.
pub open spec fn leave_post<D>(
    chapters: Seq<ChapterItem>,
    path: Seq<char>,
    forward: bool,
    before: SwitchStatus<D>,
    after: SwitchStatus<D>,
    r: LeaveOutcome<D>,
) -> bool {
    let neighbor = if forward {
        next_path_spec(chapters, path)
    } else {
        prev_path_spec(chapters, path)
    };
    match before {
        SwitchStatus::Ready(d) => r == LeaveOutcome::Switched(d) && after is Idle,
        SwitchStatus::Idle => match neighbor {
            Some(p) => (r matches LeaveOutcome::Requested(q) && q@ == p) && after is Loading,
            None => r is Nothing && after == before,
        },
        _ => r is Nothing && after == before,
    }
}

impl LibraryState {
    /// Leaves the chapter at `archive_path` at its edge, to the next
    /// chapter when `forward`, else to the previous one: takes the
    /// neighbour when its loader holds it, and otherwise asks the idle
    /// loader for it.  The loader of the other direction is untouched.
    pub fn leave_chapter<D>(
        &self,
        archive_path: &str,
        forward: bool,
        next: &mut SwitchState<D>,
        prev: &mut SwitchState<D>,
    ) -> (r: LeaveOutcome<D>)
        ensures
            forward ==> leave_post(self.chapters@, archive_path@, true, old(next).status, final(next).status, r),
            forward ==> final(prev).status == old(prev).status,
            !forward ==> leave_post(self.chapters@, archive_path@, false, old(prev).status, final(prev).status, r),
            !forward ==> final(next).status == old(next).status,
    {
        if forward {
            match next.take_ready() {
                Some(d) => {
                    return LeaveOutcome::Switched(d);
                },
                None => {},
            }
            match self.request_switch(archive_path, true, next.is_idle()) {
                Some(p) => {
                    next.trigger();
                    LeaveOutcome::Requested(p)
                },
                None => LeaveOutcome::Nothing,
            }
        } else {
            match prev.take_ready() {
                Some(d) => {
                    return LeaveOutcome::Switched(d);
                },
                None => {},
            }
            match self.request_switch(archive_path, false, prev.is_idle()) {
                Some(p) => {
                    prev.trigger();
                    LeaveOutcome::Requested(p)
                },
                None => LeaveOutcome::Nothing,
            }
        }
    }
}

/// What the reader shows when the neighbouring chapters are preloaded.
pub struct PreloadView {
    /// Reading as one strip.
    pub strip: bool,
    /// The page shown (paged reading).
    pub page_index: usize,
    /// The pages of the current chapter.
    pub total: usize,
    /// The reading mode of the current title.
    pub mode: ReaderMode,
    /// The current chapter.
    pub current_path: String,
    /// The chapter loaded before the current one in the strip, or empty.
    pub prev_loaded_path: String,
    /// The chapter joined after the current one in the strip, or empty.
    pub joined_path: String,
    /// Whether no chapter is joined after the current one.
    pub joined_empty: bool,
    /// Whether no chapter is loaded before the current one.
    pub prev_empty: bool,
    /// The strip is scrolled near its end.
    pub near_end: bool,
    /// The strip is scrolled near its start.
    pub near_start: bool,
    /// The loader of the next chapter is idle.
    pub next_idle: bool,
    /// The loader of the previous chapter is idle.
    pub prev_idle: bool,
}

/// The chapters to start loading, next and previous, for the view `v` of
/// the chapter list `chapters`.  In the strip, the next chapter is loaded
/// near the end when none is joined yet, and the previous one near the
/// start (counted from the chapter loaded before, if any) when none is
/// loaded; page by page, the next chapter is loaded on the last page or
/// spread and the previous one on the first page, unless already loaded.
pub open spec fn preload_plan_spec(chapters: Seq<ChapterItem>, v: PreloadView) -> (Option<Seq<char>>, Option<
    Seq<char>,
>) {
    let next = next_path_spec(chapters, v.current_path@);
    if v.strip {
        let prev = if v.prev_loaded_path@.len() > 0 {
            prev_path_spec(chapters, v.prev_loaded_path@)
        } else {
            prev_path_spec(chapters, v.current_path@)
        };
        (
            if v.near_end && v.joined_empty && v.next_idle {
                next
            } else {
                None
            },
            if v.near_start && v.prev_empty && v.prev_idle {
                prev
            } else {
                None
            },
        )
    } else {
        let prev = prev_path_spec(chapters, v.current_path@);
        (
            match next {
                Some(n) => if n != v.joined_path@ && n != v.current_path@ && v.next_idle && (match v.mode {
                    ReaderMode::Double => v.page_index + 2 >= v.total,
                    _ => v.page_index + 1 >= v.total,
                }) {
                    Some(n)
                } else {
                    None
                },
                None => None,
            },
            match prev {
                Some(p) => if p != v.prev_loaded_path@ && p != v.current_path@ && v.prev_idle && v.page_index == 0 {
                    Some(p)
                } else {
                    None
                },
                None => None,
            },
        )
    }
}

impl LibraryState {
    /// The chapters to start loading next to the one read.
    pub fn preload_plan(&self, v: &PreloadView) -> (r: (Option<String>, Option<String>))
        ensures
            (
                match r.0 {
                    Some(s) => Some(s@),
                    None => None,
                },
                match r.1 {
                    Some(s) => Some(s@),
                    None => None,
                },
            ) == preload_plan_spec(self.chapters@, *v),
    {
        let next = self.next_chapter_path(v.current_path.as_str());
        if v.strip {
            let prev = if !v.prev_loaded_path.as_str().is_empty() {
                self.prev_chapter_path(v.prev_loaded_path.as_str())
            } else {
                self.prev_chapter_path(v.current_path.as_str())
            };
            let load_next = if v.near_end && v.joined_empty && v.next_idle {
                next
            } else {
                None
            };
            let load_prev = if v.near_start && v.prev_empty && v.prev_idle {
                prev
            } else {
                None
            };
            (load_next, load_prev)
        } else {
            let prev = self.prev_chapter_path(v.current_path.as_str());
            let load_next = match next {
                Some(n) => if !same_text(n.as_str(), v.joined_path.as_str()) && !same_text(
                    n.as_str(),
                    v.current_path.as_str(),
                ) && v.next_idle && is_at_chapter_end(v.page_index, v.total, v.mode) {
                    Some(n)
                } else {
                    None
                },
                None => None,
            };
            let load_prev = match prev {
                Some(p) => if !same_text(p.as_str(), v.prev_loaded_path.as_str()) && !same_text(
                    p.as_str(),
                    v.current_path.as_str(),
                ) && v.prev_idle && v.page_index == 0 {
                    Some(p)
                } else {
                    None
                },
                None => None,
            };
            (load_next, load_prev)
        }
    }
}

/// Whether a jump to the chapter at `target` has anything to do: not when
/// that chapter is already shown with its pages.
pub fn jump_needed(current_path: &str, current_has_pages: bool, target: &str) -> (r: bool)
    ensures
        r == !(current_path@ == target@ && current_has_pages),
{
    !(same_text(current_path, target) && current_has_pages)
}

impl NavigationLevel {
    /// The level after a jump to the chapter at `target` of the title in
    /// `dir`.
    pub fn jump_to(self, target: &str, dir: &str) -> (r: NavigationLevel)
        ensures
            match self {
                NavigationLevel::Reading { .. } => r matches NavigationLevel::Reading {
                    archive_path,
                    page_index,
                    dir_path,
                } && archive_path@ == target@ && page_index == 0 && dir_path@ == dir@,
                NavigationLevel::ReadingWebtoon { .. } => r matches NavigationLevel::ReadingWebtoon {
                    archive_path,
                    dir_path,
                } && archive_path@ == target@ && dir_path@ == dir@,
                _ => r == self,
            },
    {
        match self {
            NavigationLevel::Reading { .. } => NavigationLevel::Reading {
                archive_path: copy_str(target),
                page_index: 0,
                dir_path: copy_str(dir),
            },
            NavigationLevel::ReadingWebtoon { .. } => NavigationLevel::ReadingWebtoon {
                archive_path: copy_str(target),
                dir_path: copy_str(dir),
            },
            other => other,
        }
    }
}

} // verus!
