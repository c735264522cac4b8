use vstd::prelude::*;
use crate::spread_map::SpreadMap;

verus! {

/// One step of the interactive reveal: a frame of a page, a whole page, or
/// an empty slot.
#[derive(Clone, Copy, PartialEq, Eq, Structural)]
pub struct Piece {
    pub real: usize,
    pub frame: Option<usize>,
    pub placeholder: bool,
}

/// How many pieces the page shown in one slot of the current spread has.
#[derive(Clone, Copy, PartialEq, Eq, Structural)]
pub struct SlotInfo {
    pub key: u32,
    pub count: usize,
}

/// The page numbers (counted from 1) of the pieces that are not
/// placeholders, in order.
pub open spec fn page_keys(pieces: Seq<Piece>) -> Seq<u32>
    decreases pieces.len(),
{
    if pieces.len() == 0 {
        Seq::empty()
    } else {
        let prev = page_keys(pieces.drop_last());
        if pieces.last().placeholder {
            prev
        } else {
            prev.push(((pieces.last().real as u32) + 1) as u32)
        }
    }
}

/// Sum of the counts of the first `n` slots.
pub open spec fn count_sum(slots: Seq<SlotInfo>, n: int) -> int
    decreases n,
{
    if n <= 0 || slots.len() == 0 {
        0
    } else if n > slots.len() {
        count_sum(slots, slots.len() as int)
    } else {
        count_sum(slots, n - 1) + slots[n - 1].count
    }
}

pub open spec fn min(a: int, b: int) -> int {
    if a < b { a } else { b }
}

/// The progress of the interactive reveal of a chapter: which spread is
/// shown, the pieces it is revealed in, and how many pieces of each spread
/// have been revealed.
pub struct RevealState {
    interactive: bool,
    cur_spread: Option<u64>,
    cur_pieces: Vec<Piece>,
    progress: SpreadMap<usize>,
    reveal_back: SpreadMap<bool>,
    cur_slot_info: Vec<SlotInfo>,
    spread_pieces: SpreadMap<usize>,
    last_page_keys: Vec<u32>,
}

impl RevealState {
    pub closed spec fn wf(&self) -> bool {
        &&& self.progress.wf()
        &&& self.reveal_back.wf()
        &&& self.spread_pieces.wf()
        &&& self.cur_pieces@.len() <= usize::MAX
    }

    pub closed spec fn is_interactive(&self) -> bool {
        self.interactive
    }

    pub closed spec fn spread(&self) -> Option<u64> {
        self.cur_spread
    }

    pub closed spec fn pieces(&self) -> Seq<Piece> {
        self.cur_pieces@
    }

    /// Pieces revealed of `sp`, when recorded.
    pub closed spec fn progress_of(&self, sp: u64) -> Option<usize> {
        self.progress.lookup(sp)
    }

    /// Whether the last reveal step on `sp` went backwards, when recorded.
    pub closed spec fn back_of(&self, sp: u64) -> Option<bool> {
        self.reveal_back.lookup(sp)
    }

    /// Number of pieces spread `sp` was last shown with, when known.
    pub closed spec fn pieces_of(&self, sp: u64) -> Option<usize> {
        self.spread_pieces.lookup(sp)
    }

    pub closed spec fn slots(&self) -> Seq<SlotInfo> {
        self.cur_slot_info@
    }

    pub closed spec fn page_keys_shown(&self) -> Seq<u32> {
        self.last_page_keys@
    }

    /// Pieces revealed of spread `sp` (0 when none is recorded).
    pub open spec fn revealed_of(&self, sp: u64) -> int {
        match self.progress_of(sp) {
            Some(v) => v as int,
            None => 0,
        }
    }

    /// What a successful or refused `reveal_next` leaves.
    pub open spec fn reveal_next_post(old: RevealState, new: RevealState, r: Option<usize>) -> bool {
        &&& new.wf()
        &&& new.is_interactive() == old.is_interactive()
        &&& new.spread() == old.spread()
        &&& new.pieces() == old.pieces()
        &&& new.slots() == old.slots()
        &&& new.page_keys_shown() == old.page_keys_shown()
        &&& forall|j: u64| #[trigger] new.pieces_of(j) == old.pieces_of(j)
        &&& match old.spread() {
            Some(sp) => if old.revealed_of(sp) < old.pieces().len() {
                &&& r == Some(old.revealed_of(sp) as usize)
                &&& forall|j: u64| #[trigger]
                    new.progress_of(j) == if j == sp {
                        Some((old.revealed_of(sp) + 1) as usize)
                    } else {
                        old.progress_of(j)
                    }
                &&& forall|j: u64| #[trigger]
                    new.back_of(j) == if j == sp {
                        Some(false)
                    } else {
                        old.back_of(j)
                    }
            } else {
                &&& r is None
                &&& forall|j: u64| #[trigger] new.progress_of(j) == old.progress_of(j)
                &&& forall|j: u64| #[trigger] new.back_of(j) == old.back_of(j)
            },
            None => {
                &&& r is None
                &&& forall|j: u64| #[trigger] new.progress_of(j) == old.progress_of(j)
                &&& forall|j: u64| #[trigger] new.back_of(j) == old.back_of(j)
            },
        }
    }

    /// What a successful or refused `reveal_prev` leaves.
    pub open spec fn reveal_prev_post(old: RevealState, new: RevealState, r: bool) -> bool {
        &&& new.wf()
        &&& new.is_interactive() == old.is_interactive()
        &&& new.spread() == old.spread()
        &&& new.pieces() == old.pieces()
        &&& new.slots() == old.slots()
        &&& new.page_keys_shown() == old.page_keys_shown()
        &&& forall|j: u64| #[trigger] new.pieces_of(j) == old.pieces_of(j)
        &&& match old.spread() {
            Some(sp) => if old.revealed_of(sp) > 0 {
                &&& r
                &&& forall|j: u64| #[trigger]
                    new.progress_of(j) == if j == sp {
                        Some((old.revealed_of(sp) - 1) as usize)
                    } else {
                        old.progress_of(j)
                    }
                &&& forall|j: u64| #[trigger]
                    new.back_of(j) == if j == sp {
                        Some(true)
                    } else {
                        old.back_of(j)
                    }
            } else {
                &&& !r
                &&& forall|j: u64| #[trigger] new.progress_of(j) == old.progress_of(j)
                &&& forall|j: u64| #[trigger] new.back_of(j) == old.back_of(j)
            },
            None => {
                &&& !r
                &&& forall|j: u64| #[trigger] new.progress_of(j) == old.progress_of(j)
                &&& forall|j: u64| #[trigger] new.back_of(j) == old.back_of(j)
            },
        }
    }

    /// Nothing shown, nothing revealed, not interactive.
    pub fn new() -> (r: Self)
        ensures
            r.wf(),
            !r.is_interactive(),
            r.spread() is None,
            r.pieces().len() == 0,
            r.slots().len() == 0,
            r.page_keys_shown().len() == 0,
            forall|j: u64| #[trigger] r.progress_of(j) is None,
            forall|j: u64| #[trigger] r.back_of(j) is None,
            forall|j: u64| #[trigger] r.pieces_of(j) is None,
    {
        RevealState {
            interactive: false,
            cur_spread: None,
            cur_pieces: Vec::new(),
            progress: SpreadMap::new(),
            reveal_back: SpreadMap::new(),
            cur_slot_info: Vec::new(),
            spread_pieces: SpreadMap::new(),
            last_page_keys: Vec::new(),
        }
    }

    /// Whether pieces are revealed one by one.
    pub fn interactive(&self) -> (r: bool)
        ensures
            r == self.is_interactive(),
    {
        self.interactive
    }

    /// The spread shown.
    pub fn cur_spread(&self) -> (r: Option<u64>)
        ensures
            r == self.spread(),
    {
        self.cur_spread
    }

    /// The pieces of the spread shown.
    pub fn cur_pieces(&self) -> (r: &Vec<Piece>)
        ensures
            r@ == self.pieces(),
    {
        &self.cur_pieces
    }

    /// The page numbers (from 1) of the pages on the spread shown.
    pub fn last_page_keys(&self) -> (r: &Vec<u32>)
        ensures
            r@ == self.page_keys_shown(),
    {
        &self.last_page_keys
    }

    /// Whether the last reveal step on `sp` went backwards.
    pub fn revealing_back(&self, sp: u64) -> (r: bool)
        requires
            self.wf(),
        ensures
            r == (self.back_of(sp) == Some(true)),
    {
        match self.reveal_back.get(sp) {
            Some(b) => b,
            None => false,
        }
    }

    /// Forgets the spread shown and all progress (a new chapter was opened);
    /// whether the reveal is interactive stays as it was.
    pub fn reset(&mut self)
        ensures
            final(self).wf(),
            final(self).is_interactive() == old(self).is_interactive(),
            final(self).spread() is None,
            final(self).pieces().len() == 0,
            final(self).slots().len() == 0,
            final(self).page_keys_shown().len() == 0,
            forall|j: u64| #[trigger] final(self).progress_of(j) is None,
            forall|j: u64| #[trigger] final(self).back_of(j) is None,
            forall|j: u64| #[trigger] final(self).pieces_of(j) is None,
    {
        self.cur_spread = None;
        self.cur_pieces = Vec::new();
        self.progress.clear();
        self.reveal_back.clear();
        self.cur_slot_info = Vec::new();
        self.spread_pieces.clear();
        self.last_page_keys = Vec::new();
    }

    /// Records that spread `spread` is shown, revealed in `pieces`.  Its
    /// progress starts at 0 when it has none yet, and is reset to 0 when the
    /// spread changed to one without pieces.
    pub fn current_spread(&mut self, spread: u64, pieces: &[Piece])
        requires
            old(self).wf(),
            forall|i: int|
                0 <= i < pieces@.len() && !(#[trigger] pieces@[i]).placeholder ==> (pieces@[i].real as u32) < u32::MAX,
        ensures
            final(self).wf(),
            final(self).is_interactive() == old(self).is_interactive(),
            final(self).spread() == Some(spread),
            final(self).pieces() == pieces@,
            final(self).slots() == old(self).slots(),
            final(self).page_keys_shown() == page_keys(pieces@),
            forall|j: u64| #[trigger] final(self).back_of(j) == old(self).back_of(j),
            forall|j: u64| #[trigger]
                final(self).pieces_of(j) == if j == spread {
                    Some(pieces@.len() as usize)
                } else {
                    old(self).pieces_of(j)
                },
            forall|j: u64| #[trigger]
                final(self).progress_of(j) == if j != spread {
                    old(self).progress_of(j)
                } else if pieces@.len() == 0 && (old(self).spread() != Some(spread) || old(self).pieces()
                    != pieces@) {
                    Some(0usize)
                } else {
                    match old(self).progress_of(spread) {
                        Some(v) => Some(v),
                        None => Some(0usize),
                    }
                },
    {
        let same_pieces = self.same_pieces(pieces);
        let changed = self.cur_spread != Some(spread) || !same_pieces;
        if changed {
            let mut v: Vec<Piece> = Vec::new();
            let mut i: usize = 0;
            while i < pieces.len()
                invariant
                    0 <= i <= pieces@.len(),
                    v@ == pieces@.subrange(0, i as int),
                decreases pieces@.len() - i,
            {
                v.push(pieces[i]);
                assert(v@ =~= pieces@.subrange(0, i + 1));
                i += 1;
            }
            assert(v@ =~= pieces@);
            self.cur_pieces = v;
            if pieces.len() == 0 {
                self.progress.insert(spread, 0);
            }
        }
        self.cur_spread = Some(spread);
        if self.progress.get(spread).is_none() {
            self.progress.insert(spread, 0);
        }
        self.spread_pieces.insert(spread, pieces.len());
        self.last_page_keys = keys_of_pieces(&self.cur_pieces);
    }

    fn same_pieces(&self, pieces: &[Piece]) -> (r: bool)
        ensures
            r == (self.cur_pieces@ == pieces@),
    {
        if self.cur_pieces.len() != pieces.len() {
            return false;
        }
        let mut i: usize = 0;
        while i < pieces.len()
            invariant
                0 <= i <= pieces@.len(),
                self.cur_pieces@.len() == pieces@.len(),
                forall|k: int| 0 <= k < i ==> self.cur_pieces@[k] == pieces@[k],
            decreases pieces@.len() - i,
        {
            if self.cur_pieces[i] != pieces[i] {
                return false;
            }
            i += 1;
        }
        assert(self.cur_pieces@ =~= pieces@);
        true
    }

    /// Turns the interactive reveal on or off.  Turning it on at spread `sp`
    /// counts every earlier spread as fully revealed (when its piece count is
    /// known), forgets the progress of later spreads, restarts `sp` from 0,
    /// and forgets the reveal direction of `sp` and later spreads.
    pub fn set_interactive(&mut self, on: bool, cur_spread: Option<u64>)
        requires
            old(self).wf(),
        ensures
            final(self).wf(),
            final(self).is_interactive() == on,
            final(self).spread() == old(self).spread(),
            final(self).pieces() == old(self).pieces(),
            final(self).slots() == old(self).slots(),
            final(self).page_keys_shown() == old(self).page_keys_shown(),
            forall|j: u64| #[trigger] final(self).pieces_of(j) == old(self).pieces_of(j),
            !on || cur_spread is None ==> forall|j: u64| #[trigger] final(self).progress_of(j) == old(self).progress_of(j),
            !on || cur_spread is None ==> forall|j: u64| #[trigger] final(self).back_of(j) == old(self).back_of(j),
            on && cur_spread is Some ==> forall|j: u64| #[trigger]
                final(self).progress_of(j) == if j > cur_spread->0 {
                    None
                } else if j == cur_spread->0 {
                    Some(0usize)
                } else {
                    match old(self).progress_of(j) {
                        Some(v) => match old(self).pieces_of(j) {
                            Some(t) => Some(t),
                            None => Some(v),
                        },
                        None => None,
                    }
                },
            on && cur_spread is Some ==> forall|j: u64| #[trigger]
                final(self).back_of(j) == if j < cur_spread->0 {
                    old(self).back_of(j)
                } else {
                    None
                },
    {
        if on {
            if let Some(sp) = cur_spread {
                let keys = self.progress.keys();
                let ghost p0 = self.progress;
                let mut i: usize = 0;
                while i < keys.len()
                    invariant
                        0 <= i <= keys@.len(),
                        self.wf(),
                        self.cur_spread == old(self).cur_spread,
                        self.cur_pieces == old(self).cur_pieces,
                        self.cur_slot_info == old(self).cur_slot_info,
                        self.last_page_keys == old(self).last_page_keys,
                        self.reveal_back == old(self).reveal_back,
                        self.interactive == old(self).interactive,
                        keys@.no_duplicates(),
                        forall|k: u64| #[trigger] p0.lookup(k) is Some <==> keys@.contains(k),
                        forall|j: u64| #[trigger] self.spread_pieces.lookup(j) == old(self).spread_pieces.lookup(j),
                        forall|j: u64| #[trigger]
                            self.progress.lookup(j) == if j < sp && keys@.subrange(0, i as int).contains(j) {
                                match p0.lookup(j) {
                                    Some(v) => match self.spread_pieces.lookup(j) {
                                        Some(t) => Some(t),
                                        None => Some(v),
                                    },
                                    None => None,
                                }
                            } else {
                                p0.lookup(j)
                            },
                    decreases keys@.len() - i,
                {
                    let k = keys[i];
                    let ghost before = self.progress;
                    if k < sp {
                        if let Some(t) = self.spread_pieces.get(k) {
                            self.progress.insert(k, t);
                        }
                    }
                    proof {
                        assert forall|j: u64| #[trigger]
                            self.progress.lookup(j) == if j < sp && keys@.subrange(0, i + 1).contains(j) {
                                match p0.lookup(j) {
                                    Some(v) => match self.spread_pieces.lookup(j) {
                                        Some(t) => Some(t),
                                        None => Some(v),
                                    },
                                    None => None,
                                }
                            } else {
                                p0.lookup(j)
                            } by {
                            let sub0 = keys@.subrange(0, i as int);
                            let sub1 = keys@.subrange(0, i + 1);
                            assert(sub1 =~= sub0.push(k));
                            assert(sub1.contains(j) <==> (sub0.contains(j) || j == k)) by {
                                if sub1.contains(j) {
                                    let q = choose|q: int| 0 <= q < sub1.len() && #[trigger] sub1[q] == j;
                                    if q < i {
                                        assert(sub0[q] == j);
                                    }
                                }
                                if sub0.contains(j) {
                                    let q = choose|q: int| 0 <= q < sub0.len() && #[trigger] sub0[q] == j;
                                    assert(sub1[q] == j);
                                }
                                if j == k {
                                    assert(sub1[i as int] == j);
                                }
                            }
                            if j == k {
                                assert(keys@.contains(k)) by {
                                    assert(keys@[i as int] == k);
                                }
                                if sub0.contains(j) {
                                    let q = choose|q: int| 0 <= q < sub0.len() && #[trigger] sub0[q] == j;
                                    assert(keys@[q] == keys@[i as int]);
                                }
                            }
                        }
                    }
                    i += 1;
                }
                proof {
                    assert(keys@.subrange(0, keys@.len() as int) =~= keys@);
                }
                self.progress.retain_below(sp, true);
                self.progress.insert(sp, 0);
                self.reveal_back.retain_below(sp, false);
            }
            self.interactive = true;
        } else {
            self.interactive = false;
        }
    }

    /// Pieces revealed of spread `spread`.
    pub fn revealed(&self, spread: u64) -> (r: usize)
        requires
            self.wf(),
        ensures
            r == self.revealed_of(spread),
    {
        match self.progress.get(spread) {
            Some(v) => v,
            None => 0,
        }
    }

    /// Number of pieces of the spread shown.
    pub fn total_pieces(&self) -> (r: usize)
        ensures
            r == self.pieces().len(),
    {
        self.cur_pieces.len()
    }

    /// Records how many pieces the page in each slot of the spread has.
    pub fn set_slot_info(&mut self, info: Vec<SlotInfo>)
        requires
            old(self).wf(),
        ensures
            final(self).wf(),
            final(self).slots() == info@,
            final(self).is_interactive() == old(self).is_interactive(),
            final(self).spread() == old(self).spread(),
            final(self).pieces() == old(self).pieces(),
            final(self).page_keys_shown() == old(self).page_keys_shown(),
            forall|j: u64| #[trigger] final(self).progress_of(j) == old(self).progress_of(j),
            forall|j: u64| #[trigger] final(self).back_of(j) == old(self).back_of(j),
            forall|j: u64| #[trigger] final(self).pieces_of(j) == old(self).pieces_of(j),
    {
        self.cur_slot_info = info;
    }

    /// Number of pieces of the page in slot `slot_index` (0 past the last
    /// slot).
    pub fn slot_count(&self, slot_index: usize) -> (r: usize)
        ensures
            r == if slot_index < self.slots().len() {
                self.slots()[slot_index as int].count as int
            } else {
                0
            },
    {
        if slot_index < self.cur_slot_info.len() {
            self.cur_slot_info[slot_index].count
        } else {
            0
        }
    }

    /// How many pieces of the page in slot `slot_index` are revealed: the
    /// spread's progress minus the pieces of the earlier slots, at least 0.
    /// `usize::MAX` when no spread is shown or there is no such slot.
    pub fn slot_reveal(&self, slot_index: usize) -> (r: usize)
        requires
            self.wf(),
            self.spread() is Some ==> count_sum(self.slots(), min(slot_index as int, self.slots().len() as int))
                <= usize::MAX,
        ensures
            r == match self.spread() {
                None => usize::MAX as int,
                Some(sp) => if slot_index < self.slots().len() {
                    if self.revealed_of(sp) >= count_sum(self.slots(), slot_index as int) {
                        self.revealed_of(sp) - count_sum(self.slots(), slot_index as int)
                    } else {
                        0
                    }
                } else {
                    usize::MAX as int
                },
            },
    {
        let sp = match self.cur_spread {
            Some(sp) => sp,
            None => {
                return usize::MAX;
            },
        };
        let rev = self.revealed(sp);
        let mut start: usize = 0;
        let mut i: usize = 0;
        while i < self.cur_slot_info.len()
            invariant
                0 <= i <= self.cur_slot_info@.len(),
                start == count_sum(self.cur_slot_info@, i as int),
                rev == self.revealed_of(sp),
                self.cur_spread == Some(sp),
                count_sum(self.cur_slot_info@, min(slot_index as int, self.cur_slot_info@.len() as int))
                    <= usize::MAX,
                i <= slot_index,
            decreases self.cur_slot_info@.len() - i,
        {
            if i == slot_index {
                return if rev >= start {
                    rev - start
                } else {
                    0
                };
            }
            proof {
                lemma_count_sum_mono(self.cur_slot_info@, i + 1, min(slot_index as int, self.cur_slot_info@.len() as int));
            }
            start += self.cur_slot_info[i].count;
            i += 1;
        }
        usize::MAX
    }

    /// Whether the page in slot `slot_index` still has hidden pieces: the
    /// spread's progress is below the pieces up to and including that slot
    /// (capped at the spread's piece count).  False when no spread is shown
    /// or there is no such slot.
    pub fn slot_covered(&self, slot_index: usize) -> (r: bool)
        requires
            self.wf(),
            self.spread() is Some ==> count_sum(self.slots(), min(slot_index + 1, self.slots().len() as int))
                <= usize::MAX,
        ensures
            r == match self.spread() {
                None => false,
                Some(sp) => slot_index < self.slots().len() && self.revealed_of(sp) < min(
                    count_sum(self.slots(), slot_index + 1),
                    self.pieces().len() as int,
                ),
            },
    {
        let sp = match self.cur_spread {
            Some(sp) => sp,
            None => {
                return false;
            },
        };
        let rev = self.revealed(sp);
        let mut end: usize = 0;
        let mut i: usize = 0;
        while i < self.cur_slot_info.len()
            invariant
                0 <= i <= self.cur_slot_info@.len(),
                end == count_sum(self.cur_slot_info@, i as int),
                rev == self.revealed_of(sp),
                self.cur_spread == Some(sp),
                count_sum(self.cur_slot_info@, min(slot_index + 1, self.cur_slot_info@.len() as int))
                    <= usize::MAX,
                i <= slot_index,
            decreases self.cur_slot_info@.len() - i,
        {
            proof {
                lemma_count_sum_mono(self.cur_slot_info@, i + 1, min(slot_index + 1, self.cur_slot_info@.len() as int));
            }
            end += self.cur_slot_info[i].count;
            assert(end == count_sum(self.cur_slot_info@, i + 1));
            if i == slot_index {
                let total = self.cur_pieces.len();
                let cap = if end < total {
                    end
                } else {
                    total
                };
                return rev < cap;
            }
            i += 1;
        }
        false
    }

    /// Whether spread `spread` still has hidden pieces.  A spread whose piece
    /// count is unknown counts as covered unless revealed `usize::MAX` times;
    /// one with no pieces is never covered.
    pub fn spread_covered_any(&self, spread: u64) -> (r: bool)
        requires
            self.wf(),
        ensures
            r == match self.pieces_of(spread) {
                Some(t) => t > 0 && self.revealed_of(spread) < t,
                None => self.revealed_of(spread) < usize::MAX,
            },
    {
        let total = match self.spread_pieces.get(spread) {
            Some(t) => t,
            None => usize::MAX,
        };
        if total == 0 {
            return false;
        }
        let rev = self.revealed(spread);
        rev < total
    }

    /// Whether the spread shown has pieces still hidden.
    pub fn has_curtain(&self) -> (r: bool)
        requires
            self.wf(),
        ensures
            r == match self.spread() {
                Some(sp) => self.pieces().len() > 0 && self.revealed_of(sp) < self.pieces().len(),
                None => false,
            },
    {
        match self.cur_spread {
            Some(sp) => self.cur_pieces.len() > 0 && self.revealed(sp) < self.cur_pieces.len(),
            None => false,
        }
    }

    /// Reveals the next piece of the spread shown.  Returns its position in
    /// the spread's pieces, or `None` when no spread is shown or all its
    /// pieces are revealed.
    pub fn reveal_next(&mut self) -> (r: Option<usize>)
        requires
            old(self).wf(),
        ensures
            Self::reveal_next_post(*old(self), *final(self), r),
    {
        let sp = match self.cur_spread {
            Some(sp) => sp,
            None => {
                return None;
            },
        };
        let rev = self.revealed(sp);
        if rev >= self.cur_pieces.len() {
            return None;
        }
        self.progress.insert(sp, rev + 1);
        self.reveal_back.insert(sp, false);
        Some(rev)
    }

    /// Hides the last revealed piece of the spread shown.  Returns false when
    /// no spread is shown or none of its pieces is revealed.
    pub fn reveal_prev(&mut self) -> (r: bool)
        requires
            old(self).wf(),
        ensures
            Self::reveal_prev_post(*old(self), *final(self), r),
    {
        let sp = match self.cur_spread {
            Some(sp) => sp,
            None => {
                return false;
            },
        };
        let rev = self.revealed(sp);
        if rev == 0 {
            return false;
        }
        self.progress.insert(sp, rev - 1);
        self.reveal_back.insert(sp, true);
        true
    }

    /// Whether the piece at position `p` is the first piece of its page on
    /// the spread shown.
    pub fn is_page_first_piece(&self, p: usize) -> (r: bool)
        requires
            p < self.pieces().len(),
        ensures
            r == forall|q: int| 0 <= q < p ==> (#[trigger] self.pieces()[q]).real != self.pieces()[p as int].real,
    {
        let page = self.cur_pieces[p].real;
        let mut q: usize = 0;
        while q < p
            invariant
                0 <= q <= p < self.cur_pieces@.len(),
                page == self.cur_pieces@[p as int].real,
                forall|k: int| 0 <= k < q ==> (#[trigger] self.cur_pieces@[k]).real != page,
            decreases p - q,
        {
            if self.cur_pieces[q].real == page {
                return false;
            }
            q += 1;
        }
        true
    }
}

proof fn lemma_count_sum_mono(slots: Seq<SlotInfo>, a: int, b: int)
    requires
        0 <= a <= b <= slots.len(),
    ensures
        count_sum(slots, a) <= count_sum(slots, b),
    decreases b - a,
{
    if a < b {
        lemma_count_sum_mono(slots, a, b - 1);
    }
}

/// The page numbers (from 1) of the non-placeholder pieces.
fn keys_of_pieces(pieces: &Vec<Piece>) -> (r: Vec<u32>)
    requires
        forall|i: int|
            0 <= i < pieces@.len() && !(#[trigger] pieces@[i]).placeholder ==> (pieces@[i].real as u32) < u32::MAX,
    ensures
        r@ == page_keys(pieces@),
{
    let mut r: Vec<u32> = Vec::new();
    let mut i: usize = 0;
    while i < pieces.len()
        invariant
            0 <= i <= pieces@.len(),
            forall|k: int|
                0 <= k < pieces@.len() && !(#[trigger] pieces@[k]).placeholder ==> (pieces@[k].real as u32) < u32::MAX,
            r@ == page_keys(pieces@.subrange(0, i as int)),
        decreases pieces@.len() - i,
    {
        assert(pieces@.subrange(0, i + 1).drop_last() =~= pieces@.subrange(0, i as int));
        let p = pieces[i];
        if !p.placeholder {
            r.push(p.real as u32 + 1);
        }
        i += 1;
    }
    assert(pieces@.subrange(0, pieces@.len() as int) =~= pieces@);
    r
}

/// After a successful `reveal_next`, `reveal_prev` succeeds too and brings
/// the spread's count of revealed pieces back to what it was; other spreads
/// keep their progress throughout.
pub proof fn lemma_reveal_next_then_prev(s0: RevealState, s1: RevealState, r1: Option<usize>, s2: RevealState, r2: bool)
    requires
        s0.wf(),
        RevealState::reveal_next_post(s0, s1, r1),
        r1 is Some,
        RevealState::reveal_prev_post(s1, s2, r2),
    ensures
        r2,
        s2.spread() == s0.spread(),
        s0.spread() is Some,
        s2.revealed_of(s0.spread()->0) == s0.revealed_of(s0.spread()->0),
        forall|j: u64| j != s0.spread()->0 ==> #[trigger] s2.progress_of(j) == s0.progress_of(j),
{
    let sp = s0.spread()->0;
    assert(s1.progress_of(sp) == Some((s0.revealed_of(sp) + 1) as usize));
    assert(s2.progress_of(sp) == Some(s0.revealed_of(sp) as usize));
}

/// `(order[a], a)` comes before `(order[b], b)`.
pub open spec fn frame_before(order: Seq<u8>, a: int, b: int) -> bool {
    order[a] < order[b] || (order[a] == order[b] && a < b)
}

/// The frames of a page in reveal order: the enabled ones (`enabled[i]`),
/// by their `order` value, earlier frames first among equal values.
pub fn frame_sequence(enabled: &Vec<bool>, order: &Vec<u8>) -> (r: Vec<usize>)
    requires
        enabled.len() == order.len(),
    ensures
        forall|i: int| 0 <= i < r@.len() ==> (#[trigger] r@[i]) < enabled@.len() && enabled@[r@[i] as int],
        forall|f: int| 0 <= f < enabled@.len() && enabled@[f] ==> r@.contains(f as usize),
        forall|i: int, j: int| 0 <= i < j < r@.len() ==> frame_before(order@, #[trigger] r@[i] as int, #[trigger] r@[j] as int),
{
    let mut r: Vec<usize> = Vec::new();
    let mut f: usize = 0;
    while f < enabled.len()
        invariant
            0 <= f <= enabled@.len(),
            enabled@.len() == order@.len(),
            forall|i: int| 0 <= i < r@.len() ==> (#[trigger] r@[i]) < f && enabled@[r@[i] as int],
            forall|g: int| 0 <= g < f && enabled@[g] ==> r@.contains(g as usize),
            forall|i: int, j: int| 0 <= i < j < r@.len() ==> frame_before(order@, #[trigger] r@[i] as int, #[trigger] r@[j] as int),
        decreases enabled@.len() - f,
    {
        if enabled[f] {
            let mut p = r.len();
            while p > 0 && order[r[p - 1]] > order[f]
                invariant
                    0 <= p <= r@.len(),
                    f < order@.len(),
                    forall|i: int| 0 <= i < r@.len() ==> (#[trigger] r@[i]) < f,
                    forall|q: int| p <= q < r@.len() ==> order@[#[trigger] r@[q] as int] > order@[f as int],
                decreases p,
            {
                p -= 1;
            }
            let ghost r0 = r@;
            r.insert(p, f);
            proof {
                assert forall|i: int, j: int| 0 <= i < j < r@.len() implies frame_before(order@, #[trigger] r@[i] as int, #[trigger] r@[j] as int) by {
                    if j < p {
                        assert(r@[i] == r0[i] && r@[j] == r0[j]);
                    } else if j == p {
                        assert(r@[i] == r0[i]);
                        if i < p - 1 {
                            assert(frame_before(order@, r0[i] as int, r0[p - 1] as int));
                        }
                    } else if i < p {
                        assert(r@[i] == r0[i] && r@[j] == r0[j - 1]);
                    } else if i == p {
                        assert(r@[j] == r0[j - 1]);
                    } else {
                        assert(r@[i] == r0[i - 1] && r@[j] == r0[j - 1]);
                    }
                }
                assert forall|g: int| 0 <= g < f + 1 && enabled@[g] implies r@.contains(g as usize) by {
                    if g == f {
                        assert(r@[p as int] == f);
                    } else {
                        let q = choose|q: int| 0 <= q < r0.len() && r0[q] == g as usize;
                        if q < p {
                            assert(r@[q] == r0[q]);
                        } else {
                            assert(r@[q + 1] == r0[q]);
                        }
                    }
                }
                assert forall|i: int| 0 <= i < r@.len() implies (#[trigger] r@[i]) < f + 1 && enabled@[r@[i] as int] by {
                    if i < p {
                        assert(r@[i] == r0[i]);
                    } else if i > p {
                        assert(r@[i] == r0[i - 1]);
                    }
                }
            }
        }
        f += 1;
    }
    r
}

/// The pieces page `page` is revealed in: one per frame of `frames`, or the
/// whole page when there are none.
pub fn pieces_for_frames(page: usize, frames: &Vec<usize>) -> (r: Vec<Piece>)
    ensures
        frames@.len() == 0 ==> r@ == seq![Piece { real: page, frame: None, placeholder: false }],
        frames@.len() > 0 ==> r@.len() == frames@.len() && forall|i: int|
            0 <= i < frames@.len() ==> #[trigger] r@[i] == (Piece { real: page, frame: Some(frames@[i]), placeholder: false }),
{
    let mut r: Vec<Piece> = Vec::new();
    if frames.len() == 0 {
        r.push(Piece { real: page, frame: None, placeholder: false });
        assert(r@ =~= seq![Piece { real: page, frame: None, placeholder: false }]);
        return r;
    }
    let mut i: usize = 0;
    while i < frames.len()
        invariant
            0 <= i <= frames@.len(),
            r@.len() == i,
            forall|k: int| 0 <= k < i ==> #[trigger] r@[k] == (Piece { real: page, frame: Some(frames@[k]), placeholder: false }),
        decreases frames@.len() - i,
    {
        r.push(Piece { real: page, frame: Some(frames[i]), placeholder: false });
        i += 1;
    }
    r
}

} // verus!
