use vstd::prelude::*;
use crate::mode::ReaderMode;

verus! {

/// Whether the page at `page_index` is on the last page or spread of a
/// chapter of `total` pages: in double mode the last two pages, otherwise the
/// last page.
pub fn is_at_chapter_end(page_index: usize, total: usize, mode: ReaderMode) -> (r: bool)
    ensures
        r == (match mode {
            ReaderMode::Double => page_index + 2 >= total,
            _ => page_index + 1 >= total,
        }),
{
    match mode {
        ReaderMode::Double => page_index as u128 + 2 >= total as u128,
        _ => page_index as u128 + 1 >= total as u128,
    }
}

/// How many pages one step forward turns: two in double mode, else one.
pub fn page_step(mode: ReaderMode) -> (r: usize)
    ensures
        r == (match mode {
            ReaderMode::Double => 2usize,
            _ => 1usize,
        }),
{
    match mode {
        ReaderMode::Double => 2,
        _ => 1,
    }
}

/// Whether `page_index` is the first page.
pub fn is_at_chapter_start(page_index: usize) -> (r: bool)
    ensures
        r == (page_index == 0),
{
    page_index == 0
}

/// The page reached by one step from `page_index` in a chapter of `total`
/// pages, or `None` when the step would leave the chapter.
pub open spec fn stepped(page_index: usize, total: usize, mode: ReaderMode, forward: bool) -> Option<usize> {
    if forward {
        if page_index + page_step_spec(mode) < total {
            Some((page_index + page_step_spec(mode)) as usize)
        } else {
            None
        }
    } else if page_index >= page_step_spec(mode) {
        Some((page_index - page_step_spec(mode)) as usize)
    } else {
        None
    }
}

/// The page reached by one step from `page_index` in a chapter of `total`
/// pages, or `None` when the step would leave the chapter.
pub fn step_page(page_index: usize, total: usize, mode: ReaderMode, forward: bool) -> (r: Option<usize>)
    ensures
        r == stepped(page_index, total, mode, forward),
{
    let step = page_step(mode);
    if forward {
        if page_index as u128 + (step as u128) < total as u128 {
            Some(page_index + step)
        } else {
            None
        }
    } else if page_index >= step {
        Some(page_index - step)
    } else {
        None
    }
}

/// A step forward and a step back undo each other: a page turned forward
/// and then back is the page it started from, and one turned back and
/// then forward too; a step stays inside the chapter.
pub proof fn lemma_step_undone(page_index: usize, total: usize, mode: ReaderMode)
    ensures
        stepped(page_index, total, mode, true) matches Some(q) ==> q < total && stepped(q, total, mode, false) == Some(
            page_index,
        ),
        page_index < total ==> (stepped(page_index, total, mode, false) matches Some(q) ==> stepped(
            q,
            total,
            mode,
            true,
        ) == Some(page_index)),
{
}

pub open spec fn page_step_spec(mode: ReaderMode) -> int {
    match mode {
        ReaderMode::Double => 2,
        _ => 1,
    }
}

/// One slot of the two-page layout.
#[derive(Clone, Copy, Debug, PartialEq, Eq, Structural)]
pub enum VirtualPage {
    /// A page shown as it is.
    Real(usize),
    /// The left half of a wide (panorama) page.
    PanoramaLeft(usize),
    /// The right half of a wide page.
    PanoramaRight(usize),
    /// An empty slot that keeps a panorama on one spread.
    PanoramaPlaceholder,
    /// An empty slot after the last page; the flag says whether this is the
    /// last chapter.
    EndPlaceholder(bool),
}

/// The two halves of the wide page `r`, in reading order.
pub open spec fn panorama_halves(r: int, rtl: bool) -> Seq<VirtualPage> {
    if rtl {
        seq![VirtualPage::PanoramaRight(r as usize), VirtualPage::PanoramaLeft(r as usize)]
    } else {
        seq![VirtualPage::PanoramaLeft(r as usize), VirtualPage::PanoramaRight(r as usize)]
    }
}

/// The slots for the pages `0..wide.len()`, where `wide[r]` says whether page
/// `r` is a panorama: a panorama takes two slots, starting on a new spread
/// (after a placeholder if needed); any other page takes one.
pub open spec fn page_slots(wide: Seq<bool>, rtl: bool) -> Seq<VirtualPage>
    decreases wide.len(),
{
    if wide.len() == 0 {
        Seq::empty()
    } else {
        let prev = page_slots(wide.drop_last(), rtl);
        let r = wide.len() - 1;
        if wide[r] {
            if prev.len() % 2 == 0 {
                prev + panorama_halves(r, rtl)
            } else {
                prev.push(VirtualPage::PanoramaPlaceholder) + panorama_halves(r, rtl)
            }
        } else {
            prev.push(VirtualPage::Real(r as usize))
        }
    }
}

/// The whole layout: the page slots, then one or two end placeholders so
/// that the count is even.
pub open spec fn virtual_pages_spec(wide: Seq<bool>, rtl: bool, is_last_chapter: bool) -> Seq<VirtualPage> {
    let body = page_slots(wide, rtl).push(VirtualPage::EndPlaceholder(is_last_chapter));
    if body.len() % 2 == 1 {
        body.push(VirtualPage::EndPlaceholder(is_last_chapter))
    } else {
        body
    }
}

/// Number of page slots, counted the way the layout is built.
pub open spec fn slot_count(wide: Seq<bool>) -> int
    decreases wide.len(),
{
    if wide.len() == 0 {
        0
    } else {
        let prev = slot_count(wide.drop_last());
        if wide[wide.len() - 1] {
            if prev % 2 == 0 { prev + 2 } else { prev + 3 }
        } else {
            prev + 1
        }
    }
}

proof fn lemma_slot_count(wide: Seq<bool>, rtl: bool)
    ensures
        page_slots(wide, rtl).len() == slot_count(wide),
        wide.len() <= slot_count(wide) <= 3 * wide.len(),
    decreases wide.len(),
{
    if wide.len() > 0 {
        lemma_slot_count(wide.drop_last(), rtl);
    }
}

/// Builds the two-page layout of a chapter whose pages are marked wide or
/// not; `wide[r]` holds for page `r` when it is a panorama.
pub fn build_virtual_pages(wide: &Vec<bool>, rtl: bool, is_last_chapter: bool) -> (v: Vec<VirtualPage>)
    requires
        3 * wide.len() + 2 <= usize::MAX,
    ensures
        v@ == virtual_pages_spec(wide@, rtl, is_last_chapter),
{
    let mut v: Vec<VirtualPage> = Vec::new();
    let mut r: usize = 0;
    while r < wide.len()
        invariant
            0 <= r <= wide.len(),
            3 * wide.len() + 2 <= usize::MAX,
            v@ == page_slots(wide@.subrange(0, r as int), rtl),
            v@.len() <= 3 * r,
        decreases wide.len() - r,
    {
        proof {
            lemma_slot_count(wide@.subrange(0, r as int), rtl);
            assert(wide@.subrange(0, r + 1).drop_last() =~= wide@.subrange(0, r as int));
        }
        if wide[r] {
            if v.len() % 2 == 0 {
                if rtl {
                    v.push(VirtualPage::PanoramaRight(r));
                    v.push(VirtualPage::PanoramaLeft(r));
                } else {
                    v.push(VirtualPage::PanoramaLeft(r));
                    v.push(VirtualPage::PanoramaRight(r));
                }
            } else {
                if rtl {
                    v.push(VirtualPage::PanoramaPlaceholder);
                    v.push(VirtualPage::PanoramaRight(r));
                    v.push(VirtualPage::PanoramaLeft(r));
                } else {
                    v.push(VirtualPage::PanoramaPlaceholder);
                    v.push(VirtualPage::PanoramaLeft(r));
                    v.push(VirtualPage::PanoramaRight(r));
                }
            }
        } else {
            v.push(VirtualPage::Real(r));
        }
        proof {
            let prev = page_slots(wide@.subrange(0, r as int), rtl);
            assert(v@ =~= page_slots(wide@.subrange(0, r + 1), rtl));
        }
        r += 1;
    }
    assert(wide@.subrange(0, wide@.len() as int) =~= wide@);
    v.push(VirtualPage::EndPlaceholder(is_last_chapter));
    if v.len() % 2 == 1 {
        v.push(VirtualPage::EndPlaceholder(is_last_chapter));
    }
    v
}

/// The number of slots `build_virtual_pages` makes, computed without
/// building them.
pub fn compute_virtual_total(wide: &Vec<bool>) -> (n: usize)
    requires
        3 * wide.len() + 2 <= usize::MAX,
    ensures
        n == (if (slot_count(wide@) + 1) % 2 == 1 {
            slot_count(wide@) + 2
        } else {
            slot_count(wide@) + 1
        }),
{
    let mut len: usize = 0;
    let mut r: usize = 0;
    while r < wide.len()
        invariant
            0 <= r <= wide.len(),
            3 * wide.len() + 2 <= usize::MAX,
            len == slot_count(wide@.subrange(0, r as int)),
            len <= 3 * r,
        decreases wide.len() - r,
    {
        proof {
            assert(wide@.subrange(0, r + 1).drop_last() =~= wide@.subrange(0, r as int));
        }
        if wide[r] {
            if len % 2 == 0 {
                len += 2;
            } else {
                len += 3;
            }
        } else {
            len += 1;
        }
        r += 1;
    }
    assert(wide@.subrange(0, wide@.len() as int) =~= wide@);
    len += 1;
    if len % 2 == 1 {
        len += 1;
    }
    len
}

/// The count that `compute_virtual_total` gives is the length of the layout
/// that `build_virtual_pages` makes, whichever the reading direction and
/// whether the chapter is the last; that length is even (every spread has
/// two slots) and at least one more than the number of pages.
pub proof fn lemma_virtual_total_matches(wide: Seq<bool>, rtl: bool, is_last_chapter: bool)
    ensures
        virtual_pages_spec(wide, rtl, is_last_chapter).len() == (if (slot_count(wide) + 1) % 2 == 1 {
            slot_count(wide) + 2
        } else {
            slot_count(wide) + 1
        }),
        virtual_pages_spec(wide, rtl, is_last_chapter).len() % 2 == 0,
        virtual_pages_spec(wide, rtl, is_last_chapter).len() >= wide.len() + 1,
{
    lemma_slot_count(wide, rtl);
}

/// The half of the wide page `r` that is read first: the right one in a
/// right-to-left title, the left one otherwise.
pub open spec fn first_half(r: int, rtl: bool) -> VirtualPage {
    if rtl {
        VirtualPage::PanoramaRight(r as usize)
    } else {
        VirtualPage::PanoramaLeft(r as usize)
    }
}

/// The half of the wide page `r` that is read second.
pub open spec fn second_half(r: int, rtl: bool) -> VirtualPage {
    if rtl {
        VirtualPage::PanoramaLeft(r as usize)
    } else {
        VirtualPage::PanoramaRight(r as usize)
    }
}

proof fn lemma_slots_prefix(wide: Seq<bool>, rtl: bool, i: int)
    requires
        wide.len() > 0,
        0 <= i < page_slots(wide.drop_last(), rtl).len(),
    ensures
        i < page_slots(wide, rtl).len(),
        page_slots(wide, rtl)[i] == page_slots(wide.drop_last(), rtl)[i],
{
}

proof fn lemma_slots_panorama(wide: Seq<bool>, rtl: bool, r: int)
    requires
        0 <= r < wide.len(),
        wide[r],
    ensures
        exists|i: int|
            0 <= i && i + 1 < page_slots(wide, rtl).len() && i % 2 == 0 && #[trigger] page_slots(wide, rtl)[i]
                == first_half(r, rtl) && page_slots(wide, rtl)[i + 1] == second_half(r, rtl),
    decreases wide.len(),
{
    let prev = page_slots(wide.drop_last(), rtl);
    let s = page_slots(wide, rtl);
    if r < wide.len() - 1 {
        assert(wide.drop_last()[r] == wide[r]);
        lemma_slots_panorama(wide.drop_last(), rtl, r);
        let i = choose|i: int|
            0 <= i && i + 1 < prev.len() && i % 2 == 0 && #[trigger] prev[i] == first_half(r, rtl) && prev[i + 1]
                == second_half(r, rtl);
        lemma_slots_prefix(wide, rtl, i);
        lemma_slots_prefix(wide, rtl, i + 1);
        assert(s[i] == first_half(r, rtl));
    } else {
        if prev.len() % 2 == 0 {
            let i = prev.len() as int;
            assert(s[i] == first_half(r, rtl));
            assert(s[i + 1] == second_half(r, rtl));
        } else {
            let i: int = prev.len() as int + 1;
            assert(s[i] == first_half(r, rtl));
            assert(s[i + 1] == second_half(r, rtl));
        }
    }
}

proof fn lemma_slots_real(wide: Seq<bool>, rtl: bool, r: int)
    requires
        0 <= r < wide.len(),
        !wide[r],
    ensures
        exists|i: int| 0 <= i < page_slots(wide, rtl).len() && #[trigger] page_slots(wide, rtl)[i]
            == VirtualPage::Real(r as usize),
    decreases wide.len(),
{
    let prev = page_slots(wide.drop_last(), rtl);
    let s = page_slots(wide, rtl);
    if r < wide.len() - 1 {
        assert(wide.drop_last()[r] == wide[r]);
        lemma_slots_real(wide.drop_last(), rtl, r);
        let i = choose|i: int| 0 <= i < prev.len() && #[trigger] prev[i] == VirtualPage::Real(r as usize);
        lemma_slots_prefix(wide, rtl, i);
        assert(s[i] == VirtualPage::Real(r as usize));
    } else {
        assert(s[prev.len() as int] == VirtualPage::Real(r as usize));
    }
}

/// Every wide page of a chapter lies on one spread of the two-page layout:
/// its two halves stand side by side, starting at an even slot, the half
/// read first coming first (the right half in a right-to-left title, the
/// left half otherwise), whether or not a placeholder was needed before
/// them.
pub proof fn lemma_layout_panorama(wide: Seq<bool>, rtl: bool, is_last_chapter: bool, r: int)
    requires
        0 <= r < wide.len(),
        wide[r],
    ensures
        exists|i: int|
            0 <= i && i + 1 < virtual_pages_spec(wide, rtl, is_last_chapter).len() && i % 2 == 0
                && #[trigger] virtual_pages_spec(wide, rtl, is_last_chapter)[i] == first_half(r, rtl)
                && virtual_pages_spec(wide, rtl, is_last_chapter)[i + 1] == second_half(r, rtl),
{
    lemma_slots_panorama(wide, rtl, r);
    let s = page_slots(wide, rtl);
    let i = choose|i: int|
        0 <= i && i + 1 < s.len() && i % 2 == 0 && #[trigger] s[i] == first_half(r, rtl) && s[i + 1] == second_half(
            r,
            rtl,
        );
    let v = virtual_pages_spec(wide, rtl, is_last_chapter);
    assert(v[i] == s[i] && v[i + 1] == s[i + 1]);
}

/// Every page of a chapter that is not wide has a slot of its own in the
/// two-page layout.
pub proof fn lemma_layout_real(wide: Seq<bool>, rtl: bool, is_last_chapter: bool, r: int)
    requires
        0 <= r < wide.len(),
        !wide[r],
    ensures
        exists|i: int|
            0 <= i < virtual_pages_spec(wide, rtl, is_last_chapter).len() && #[trigger] virtual_pages_spec(
                wide,
                rtl,
                is_last_chapter,
            )[i] == VirtualPage::Real(r as usize),
{
    lemma_slots_real(wide, rtl, r);
    let s = page_slots(wide, rtl);
    let i = choose|i: int| 0 <= i < s.len() && #[trigger] s[i] == VirtualPage::Real(r as usize);
    let v = virtual_pages_spec(wide, rtl, is_last_chapter);
    assert(v[i] == s[i]);
}

proof fn lemma_preload_targets_k(page_index: int, ahead: int, total: int, busy: Seq<usize>, k: int)
    requires
        0 <= page_index,
        total <= usize::MAX,
        0 <= k,
    ensures
        forall|x: usize| #[trigger] preload_targets_spec(page_index, ahead, total, busy, k).contains(x) <==> (
        page_index < x <= page_index + k && x < total && !busy.contains(x)),
        forall|a: int, b: int|
            0 <= a < b < preload_targets_spec(page_index, ahead, total, busy, k).len() ==> #[trigger] preload_targets_spec(
                page_index,
                ahead,
                total,
                busy,
                k,
            )[a] < #[trigger] preload_targets_spec(page_index, ahead, total, busy, k)[b],
        forall|a: int|
            0 <= a < preload_targets_spec(page_index, ahead, total, busy, k).len() ==> #[trigger] preload_targets_spec(
                page_index,
                ahead,
                total,
                busy,
                k,
            )[a] <= page_index + k,
    decreases k,
{
    let s = preload_targets_spec(page_index, ahead, total, busy, k);
    if k > 0 {
        lemma_preload_targets_k(page_index, ahead, total, busy, k - 1);
        let prev = preload_targets_spec(page_index, ahead, total, busy, k - 1);
        let n = page_index + k;
        if page_index + k < total && !busy.contains(n as usize) {
            assert(s == prev.push(n as usize));
            assert forall|x: usize| #[trigger] s.contains(x) <==> (page_index < x <= page_index + k && x < total
                && !busy.contains(x)) by {
                if s.contains(x) {
                    let j = choose|j: int| 0 <= j < s.len() && s[j] == x;
                    if j < prev.len() {
                        assert(prev[j] == x);
                        assert(prev.contains(x));
                    }
                }
                if page_index < x <= page_index + k && x < total && !busy.contains(x) {
                    if x == n {
                        assert(s[prev.len() as int] == x);
                    } else {
                        assert(prev.contains(x));
                        let j = choose|j: int| 0 <= j < prev.len() && prev[j] == x;
                        assert(s[j] == x);
                    }
                }
            }
            assert forall|a: int, b: int| 0 <= a < b < s.len() implies #[trigger] s[a] < #[trigger] s[b] by {
                if b == s.len() - 1 {
                    assert(s[a] == prev[a]);
                    assert(prev[a] <= page_index + k - 1);
                } else {
                    assert(s[a] == prev[a] && s[b] == prev[b]);
                }
            }
            assert forall|a: int| 0 <= a < s.len() implies #[trigger] s[a] <= page_index + k by {
                if a < prev.len() {
                    assert(s[a] == prev[a]);
                }
            }
        } else {
            assert(s == prev);
            assert forall|x: usize| #[trigger] s.contains(x) <==> (page_index < x <= page_index + k && x < total
                && !busy.contains(x)) by {
                if x == n {
                    assert(!prev.contains(x));
                }
            }
        }
    } else {
        assert forall|x: usize| #[trigger] s.contains(x) <==> (page_index < x <= page_index + k && x < total
            && !busy.contains(x)) by {
            if s.contains(x) {
                let j = choose|j: int| 0 <= j < s.len() && s[j] == x;
            }
        }
    }
}

/// The pages chosen for preloading are exactly the pages after
/// `page_index`, at most `ahead` past it, that exist and are not busy, in
/// ascending order: a page that is already decoded is skipped, and the
/// pages after it are still chosen.
pub proof fn lemma_preload_targets_exact(page_index: usize, ahead: usize, total: usize, busy: Seq<usize>)
    ensures
        forall|x: usize|
            #[trigger] preload_targets_spec(page_index as int, ahead as int, total as int, busy, ahead as int).contains(
                x,
            ) <==> (page_index < x <= page_index + ahead && x < total && !busy.contains(x)),
        forall|a: int, b: int|
            0 <= a < b < preload_targets_spec(page_index as int, ahead as int, total as int, busy, ahead as int).len()
                ==> #[trigger] preload_targets_spec(page_index as int, ahead as int, total as int, busy, ahead as int)[a]
                < #[trigger] preload_targets_spec(page_index as int, ahead as int, total as int, busy, ahead as int)[b],
{
    lemma_preload_targets_k(page_index as int, ahead as int, total as int, busy, ahead as int);
}

/// The pages to decode ahead of `page_index`: the next `ahead` pages that
/// exist, in order, leaving out those in `busy` (decoded or being decoded).
pub open spec fn preload_targets_spec(page_index: int, ahead: int, total: int, busy: Seq<usize>, k: int) -> Seq<usize>
    decreases k,
{
    if k <= 0 {
        Seq::empty()
    } else {
        let prev = preload_targets_spec(page_index, ahead, total, busy, k - 1);
        let n = page_index + k;
        if n < total && !busy.contains(n as usize) {
            prev.push(n as usize)
        } else {
            prev
        }
    }
}

/// The pages to decode ahead of `page_index` in a chapter of `total`
/// pages: up to `ahead` pages after it, skipping those in `busy`.
pub fn preload_targets(page_index: usize, ahead: usize, total: usize, busy: &Vec<usize>) -> (r: Vec<usize>)
    ensures
        r@ == preload_targets_spec(page_index as int, ahead as int, total as int, busy@, ahead as int),
{
    let mut r: Vec<usize> = Vec::new();
    let mut k: usize = 0;
    while k < ahead
        invariant
            0 <= k <= ahead,
            r@ == preload_targets_spec(page_index as int, ahead as int, total as int, busy@, k as int),
        decreases ahead - k,
    {
        k += 1;
        if page_index < total && k < total - page_index {
            let n = page_index + k;
            if !contains_page(busy, n) {
                r.push(n);
            }
        }
    }
    r
}

fn contains_page(v: &Vec<usize>, n: usize) -> (r: bool)
    ensures
        r == v@.contains(n),
{
    let mut i: usize = 0;
    while i < v.len()
        invariant
            0 <= i <= v@.len(),
            forall|k: int| 0 <= k < i ==> v@[k] != n,
        decreases v@.len() - i,
    {
        if v[i] == n {
            assert(v@[i as int] == n);
            return true;
        }
        i += 1;
    }
    false
}

/// Where the loading of a neighbouring chapter stands.
pub enum SwitchStatus<D> {
    Idle,
    Loading,
    Ready(D),
    Error(String),
}

/// The status after a load ended with `result`.
pub open spec fn delivered<D>(result: Result<D, String>) -> SwitchStatus<D> {
    match result {
        Ok(d) => SwitchStatus::Ready(d),
        Err(e) => SwitchStatus::Error(e),
    }
}

/// What taking from a loader in status `s` gives, and the status after.
pub open spec fn taken<D>(s: SwitchStatus<D>) -> (Option<D>, SwitchStatus<D>) {
    match s {
        SwitchStatus::Ready(d) => (Some(d), SwitchStatus::Idle),
        _ => (None, s),
    }
}

/// The loader of a neighbouring chapter: idle, loading, or holding the
/// loaded chapter (or the error) until it is taken.
pub struct SwitchState<D> {
    pub status: SwitchStatus<D>,
}

impl<D> SwitchState<D> {
    /// An idle loader.
    pub fn new() -> (r: Self)
        ensures
            r.status is Idle,
    {
        SwitchState { status: SwitchStatus::Idle }
    }

    /// Whether a load may be started.
    pub fn is_idle(&self) -> (r: bool)
        ensures
            r == self.status is Idle,
    {
        match self.status {
            SwitchStatus::Idle => true,
            _ => false,
        }
    }

    /// A load was started.
    pub fn trigger(&mut self)
        ensures
            final(self).status is Loading,
    {
        self.status = SwitchStatus::Loading;
    }

    /// The load ended with `result`.
    pub fn deliver(&mut self, result: Result<D, String>)
        ensures
            final(self).status == delivered(result),
    {
        self.status = match result {
            Ok(d) => SwitchStatus::Ready(d),
            Err(e) => SwitchStatus::Error(e),
        };
    }

    /// Takes the loaded chapter, leaving the loader idle; when none is
    /// ready, nothing changes.
    pub fn take_ready(&mut self) -> (r: Option<D>)
        ensures
            (r, final(self).status) == taken(old(self).status),
    {
        let mut status = SwitchStatus::Idle;
        std::mem::swap(&mut status, &mut self.status);
        match status {
            SwitchStatus::Ready(d) => Some(d),
            other => {
                self.status = other;
                None
            },
        }
    }
}

/// What is delivered to a loader is taken from it exactly once: taking
/// after a successful load gives the chapter and leaves the loader idle,
/// and taking again gives nothing; after a failed load, nothing is taken
/// and the error stays.
pub proof fn lemma_deliver_then_take<D>(result: Result<D, String>)
    ensures
        match result {
            Ok(d) => taken(delivered(result)) == (Some(d), SwitchStatus::<D>::Idle) && taken(
                taken(delivered(result)).1,
            ).0 is None,
            Err(e) => taken(delivered(result)) == (None::<D>, SwitchStatus::<D>::Error(e)),
        },
{
}

} // verus!
