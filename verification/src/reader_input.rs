use vstd::prelude::*;
use crate::mode::ReaderMode;

verus! {

/// The keys that turn pages.
#[derive(Clone, Copy, Debug, PartialEq, Eq, Structural)]
pub enum NavKey {
    Space,
    ArrowUp,
    ArrowDown,
    ArrowLeft,
    ArrowRight,
}

/// Whether `key` turns forward: space and down do, up does not, and left
/// and right follow the reading direction (`rtl`: left is forward).
pub open spec fn key_forward_spec(key: NavKey, rtl: bool) -> bool {
    match key {
        NavKey::Space => true,
        NavKey::ArrowUp => false,
        NavKey::ArrowDown => true,
        NavKey::ArrowLeft => rtl,
        NavKey::ArrowRight => !rtl,
    }
}

/// Whether the page-turning key `key` turns forward.
pub fn key_forward(key: NavKey, rtl: bool) -> (r: bool)
    ensures
        r == key_forward_spec(key, rtl),
{
    match key {
        NavKey::Space => true,
        NavKey::ArrowUp => false,
        NavKey::ArrowDown => true,
        NavKey::ArrowLeft => rtl,
        NavKey::ArrowRight => !rtl,
    }
}

/// Left and right turn opposite ways, and switching the reading
/// direction swaps them.
pub proof fn lemma_arrows_mirror(rtl: bool)
    ensures
        key_forward_spec(NavKey::ArrowLeft, rtl) != key_forward_spec(NavKey::ArrowRight, rtl),
        key_forward_spec(NavKey::ArrowLeft, rtl) == key_forward_spec(NavKey::ArrowRight, !rtl),
{
}

/// Whether a page turn in the direction `forward` from `page_index` leaves
/// the chapter: never in the strip mode; forward, from the final spread
/// (`at_final_spread`) in two-page mode, else from the last page; back,
/// from the first page.
pub fn at_chapter_edge(page_index: usize, total: usize, mode: ReaderMode, forward: bool, at_final_spread: bool) -> (r:
    bool)
    ensures
        r == if mode == ReaderMode::Webtoon {
            false
        } else if forward {
            if mode == ReaderMode::Double {
                at_final_spread
            } else {
                page_index + 1 >= total
            }
        } else {
            page_index == 0
        },
{
    match mode {
        ReaderMode::Webtoon => false,
        ReaderMode::Double => if forward {
            at_final_spread
        } else {
            page_index == 0
        },
        ReaderMode::Manga => if forward {
            page_index >= total || total - page_index <= 1
        } else {
            page_index == 0
        },
    }
}

/// The full-screen key on the state (`active`, `backup`, side bar
/// visible): turning on hides the side bar and saves whether it was
/// visible; turning off shows it again as it was saved.
pub open spec fn toggle_spec(active: bool, backup: Option<bool>, sidebar: bool) -> (bool, Option<bool>, bool) {
    if !active {
        (true, Some(sidebar), false)
    } else {
        (
            false,
            backup,
            match backup {
                Some(b) => b,
                None => sidebar,
            },
        )
    }
}

/// The escape key on the state (`active`, `backup`, side bar visible):
/// leaves full-screen, if on, showing the side bar as it was saved.
pub open spec fn escape_spec(active: bool, backup: Option<bool>, sidebar: bool) -> (bool, Option<bool>, bool) {
    if active {
        (
            false,
            backup,
            match backup {
                Some(b) => b,
                None => sidebar,
            },
        )
    } else {
        (false, backup, sidebar)
    }
}

/// Full-screen reading: whether it is on, and whether the side bar was
/// visible when it was turned on.
pub struct FullscreenState {
    pub active: bool,
    pub backup_sidebar: Option<bool>,
}

impl FullscreenState {
    /// Not full-screen, nothing saved.
    pub fn new() -> (r: Self)
        ensures
            !r.active,
            r.backup_sidebar is None,
    {
        FullscreenState { active: false, backup_sidebar: None }
    }

    /// The full-screen key.  Returns whether full-screen is on afterwards.
    pub fn toggle(&mut self, sidebar_visible: &mut bool) -> (r: bool)
        ensures
            (final(self).active, final(self).backup_sidebar, *final(sidebar_visible)) == toggle_spec(
                old(self).active,
                old(self).backup_sidebar,
                *old(sidebar_visible),
            ),
            r == final(self).active,
    {
        if !self.active {
            self.backup_sidebar = Some(*sidebar_visible);
            *sidebar_visible = false;
        } else {
            if let Some(restore) = self.backup_sidebar {
                *sidebar_visible = restore;
            }
        }
        self.active = !self.active;
        self.active
    }

    /// The escape key.  Returns whether full-screen was left.
    pub fn escape(&mut self, sidebar_visible: &mut bool) -> (r: bool)
        ensures
            (final(self).active, final(self).backup_sidebar, *final(sidebar_visible)) == escape_spec(
                old(self).active,
                old(self).backup_sidebar,
                *old(sidebar_visible),
            ),
            r == old(self).active,
    {
        if self.active {
            if let Some(restore) = self.backup_sidebar {
                *sidebar_visible = restore;
            }
            self.active = false;
            true
        } else {
            false
        }
    }
}

/// Turning full-screen on and then off again, by the key or by escape,
/// shows the side bar as it was before, whatever was saved earlier.
pub proof fn lemma_fullscreen_restores_sidebar(backup: Option<bool>, sidebar: bool)
    ensures
        ({
            let on = toggle_spec(false, backup, sidebar);
            &&& on.0 && !on.2
            &&& toggle_spec(on.0, on.1, on.2) == (false, Some(sidebar), sidebar)
            &&& escape_spec(on.0, on.1, on.2) == (false, Some(sidebar), sidebar)
        }),
{
}

/// How many of `tall` are set.
pub open spec fn count_set(tall: Seq<bool>) -> nat
    decreases tall.len(),
{
    if tall.len() == 0 {
        0
    } else {
        count_set(tall.drop_last()) + if tall.last() {
            1nat
        } else {
            0nat
        }
    }
}

/// The reading mode guessed from a sample of pages, `tall` telling which
/// pages are taller than the strip threshold: the strip mode when the tall
/// ones, counted `majority_factor` times, are at least as many as the
/// pages; else manga (also for no pages).
pub open spec fn detected_mode(tall: Seq<bool>, majority_factor: u32) -> ReaderMode {
    if tall.len() == 0 {
        ReaderMode::Manga
    } else if count_set(tall) * majority_factor >= tall.len() {
        ReaderMode::Webtoon
    } else {
        ReaderMode::Manga
    }
}

/// Guesses the reading mode of a title from a sample of its pages.
pub fn detect_mode(tall: &Vec<bool>, majority_factor: u32) -> (r: ReaderMode)
    requires
        tall@.len() * majority_factor <= usize::MAX,
    ensures
        r == detected_mode(tall@, majority_factor),
{
    if tall.len() == 0 {
        return ReaderMode::Manga;
    }
    let mut votes: usize = 0;
    let mut i: usize = 0;
    while i < tall.len()
        invariant
            0 <= i <= tall@.len(),
            votes == count_set(tall@.subrange(0, i as int)),
            votes <= i,
        decreases tall@.len() - i,
    {
        assert(tall@.subrange(0, i + 1).drop_last() =~= tall@.subrange(0, i as int));
        if tall[i] {
            votes += 1;
        }
        i += 1;
    }
    assert(tall@.subrange(0, tall@.len() as int) =~= tall@);
    assert(votes * majority_factor <= tall@.len() * majority_factor) by (nonlinear_arith)
        requires
            votes <= tall@.len(),
    ;
    if votes * (majority_factor as usize) >= tall.len() {
        ReaderMode::Webtoon
    } else {
        ReaderMode::Manga
    }
}

} // verus!
