use vstd::prelude::*;
use std::collections::HashMap;

verus! {

/// A decoded page kept for display.
pub struct CachedPage<T> {
    pub index: usize,
    pub size: usize,
    pub texture: T,
}

/// Sum of the sizes of the cached pages.
pub open spec fn total_size<T>(e: Seq<CachedPage<T>>) -> int
    decreases e.len(),
{
    if e.len() == 0 {
        0
    } else {
        total_size(e.drop_last()) + e.last().size
    }
}

/// Distance of page `i` from page `p`.
pub open spec fn page_distance(i: int, p: int) -> int {
    if i >= p { i - p } else { p - i }
}

pub open spec fn is_pinned(i: usize, pinned: (usize, usize)) -> bool {
    i == pinned.0 || i == pinned.1
}

/// The position of the page to evict first: of the pages that are not
/// pinned, the one farthest from the first pinned page; the earliest such
/// one in cache order when several are equally far.
pub open spec fn farthest<T>(e: Seq<CachedPage<T>>, pinned: (usize, usize)) -> Option<int>
    decreases e.len(),
{
    if e.len() == 0 {
        None
    } else {
        let prev = farthest(e.drop_last(), pinned);
        let last = e.len() - 1;
        let i = e[last].index;
        if is_pinned(i, pinned) {
            prev
        } else {
            let d = page_distance(i as int, pinned.0 as int);
            match prev {
                Some(p) => if d > page_distance(e[p].index as int, pinned.0 as int) {
                    Some(last)
                } else {
                    prev
                },
                None => if d > 0 {
                    Some(last)
                } else {
                    None
                },
            }
        }
    }
}

/// Whether the cache is over its limits: more than `max` pages, or more
/// than `budget` bytes.
pub open spec fn over_limits<T>(e: Seq<CachedPage<T>>, max: usize, budget: usize) -> bool {
    e.len() > max || total_size(e) > budget
}

/// Evicts pages, farthest first, until the cache is within its limits or
/// only pinned pages are left.
pub open spec fn evict<T>(e: Seq<CachedPage<T>>, max: usize, budget: usize, pinned: (usize, usize)) -> Seq<CachedPage<T>>
    decreases e.len(),
{
    if over_limits(e, max, budget) && e.len() > 0 {
        match farthest(e, pinned) {
            Some(p) => if 0 <= p < e.len() {
                evict(e.remove(p), max, budget, pinned)
            } else {
                e
            },
            None => e,
        }
    } else {
        e
    }
}

/// Position of the page numbered `idx` in the cache.
pub open spec fn position_of<T>(e: Seq<CachedPage<T>>, idx: usize) -> Option<int>
    decreases e.len(),
{
    if e.len() == 0 {
        None
    } else if e.last().index == idx {
        Some(e.len() - 1)
    } else {
        position_of(e.drop_last(), idx)
    }
}

/// The cache without the page numbered `idx`.
pub open spec fn without_page<T>(e: Seq<CachedPage<T>>, idx: usize) -> Seq<CachedPage<T>> {
    match position_of(e, idx) {
        Some(p) => e.remove(p),
        None => e,
    }
}

/// No page number occurs twice.
pub open spec fn distinct_pages<T>(e: Seq<CachedPage<T>>) -> bool {
    forall|a: int, b: int| 0 <= a < b < e.len() ==> e[a].index != e[b].index
}

proof fn lemma_total_nonneg<T>(e: Seq<CachedPage<T>>)
    ensures
        total_size(e) >= 0,
    decreases e.len(),
{
    if e.len() > 0 {
        lemma_total_nonneg(e.drop_last());
    }
}

proof fn lemma_total_push<T>(e: Seq<CachedPage<T>>, x: CachedPage<T>)
    ensures
        total_size(e.push(x)) == total_size(e) + x.size,
{
    assert(e.push(x).drop_last() =~= e);
}

proof fn lemma_total_remove<T>(e: Seq<CachedPage<T>>, p: int)
    requires
        0 <= p < e.len(),
    ensures
        total_size(e.remove(p)) == total_size(e) - e[p].size,
    decreases e.len(),
{
    if p == e.len() - 1 {
        assert(e.remove(p) =~= e.drop_last());
    } else {
        lemma_total_remove(e.drop_last(), p);
        assert(e.remove(p).drop_last() =~= e.drop_last().remove(p));
        assert(e.remove(p).last() == e.last());
    }
}

proof fn lemma_position_of<T>(e: Seq<CachedPage<T>>, idx: usize)
    ensures
        match position_of(e, idx) {
            Some(p) => 0 <= p < e.len() && e[p].index == idx,
            None => forall|k: int| 0 <= k < e.len() ==> (#[trigger] e[k]).index != idx,
        },
    decreases e.len(),
{
    if e.len() > 0 && e.last().index != idx {
        lemma_position_of(e.drop_last(), idx);
        assert forall|k: int| 0 <= k < e.len() - 1 implies e[k] == e.drop_last()[k] by {}
    }
}

proof fn lemma_farthest<T>(e: Seq<CachedPage<T>>, pinned: (usize, usize))
    ensures
        match farthest(e, pinned) {
            Some(p) => 0 <= p < e.len() && !is_pinned(e[p].index, pinned),
            None => forall|k: int| 0 <= k < e.len() ==> is_pinned((#[trigger] e[k]).index, pinned),
        },
    decreases e.len(),
{
    if e.len() > 0 {
        lemma_farthest(e.drop_last(), pinned);
        assert forall|k: int| 0 <= k < e.len() - 1 implies e[k] == e.drop_last()[k] by {}
    }
}

/// Eviction leaves the cache within its limits, or holding pinned pages
/// only; it never evicts a pinned page, and keeps page numbers distinct.
pub proof fn lemma_evict_result<T>(e: Seq<CachedPage<T>>, max: usize, budget: usize, pinned: (usize, usize))
    requires
        distinct_pages(e),
    ensures
        !over_limits(evict(e, max, budget, pinned), max, budget) || forall|k: int|
            0 <= k < evict(e, max, budget, pinned).len() ==> is_pinned(
                (#[trigger] evict(e, max, budget, pinned)[k]).index,
                pinned,
            ),
        forall|k: int|
            0 <= k < e.len() && is_pinned((#[trigger] e[k]).index, pinned) ==> evict(
                e,
                max,
                budget,
                pinned,
            ).contains(e[k]),
        forall|x: CachedPage<T>| #[trigger] evict(e, max, budget, pinned).contains(x) ==> e.contains(x),
        distinct_pages(evict(e, max, budget, pinned)),
    decreases e.len(),
{
    lemma_farthest(e, pinned);
    if over_limits(e, max, budget) && e.len() > 0 {
        match farthest(e, pinned) {
            Some(p) => {
                let r = e.remove(p);
                assert forall|a: int, b: int| 0 <= a < b < r.len() implies r[a].index != r[b].index by {
                    let a0 = if a < p { a } else { a + 1 };
                    let b0 = if b < p { b } else { b + 1 };
                    assert(r[a] == e[a0] && r[b] == e[b0]);
                }
                lemma_evict_result(r, max, budget, pinned);
                assert forall|k: int|
                    0 <= k < e.len() && is_pinned((#[trigger] e[k]).index, pinned) implies evict(
                    e,
                    max,
                    budget,
                    pinned,
                ).contains(e[k]) by {
                    let k0 = if k < p { k } else { k - 1 };
                    assert(r[k0] == e[k]);
                }
                assert forall|x: CachedPage<T>| #[trigger] r.contains(x) implies e.contains(x) by {
                    let k = choose|k: int| 0 <= k < r.len() && r[k] == x;
                    let k0 = if k < p { k } else { k + 1 };
                    assert(e[k0] == x);
                }
            },
            None => {},
        }
    }
}

/// The page that eviction picks first is an unpinned page at least as far
/// from the first pinned page as every other unpinned page, and farther
/// than every unpinned page before it in cache order; there is none only
/// when every page is pinned.
pub proof fn lemma_farthest_is_farthest<T>(e: Seq<CachedPage<T>>, pinned: (usize, usize))
    ensures
        farthest(e, pinned) matches Some(p) ==> {
            &&& 0 <= p < e.len()
            &&& !is_pinned(e[p].index, pinned)
            &&& forall|k: int|
                0 <= k < e.len() && !is_pinned((#[trigger] e[k]).index, pinned) ==> page_distance(
                    e[k].index as int,
                    pinned.0 as int,
                ) <= page_distance(e[p].index as int, pinned.0 as int)
            &&& forall|k: int|
                0 <= k < p && !is_pinned((#[trigger] e[k]).index, pinned) ==> page_distance(
                    e[k].index as int,
                    pinned.0 as int,
                ) < page_distance(e[p].index as int, pinned.0 as int)
        },
        farthest(e, pinned) is None ==> forall|k: int| 0 <= k < e.len() ==> is_pinned((#[trigger] e[k]).index, pinned),
    decreases e.len(),
{
    lemma_farthest(e, pinned);
    if e.len() > 0 {
        let d0 = e.drop_last();
        lemma_farthest_is_farthest(d0, pinned);
        assert forall|k: int| 0 <= k < e.len() - 1 implies e[k] == d0[k] by {}
        let last = e.len() - 1;
        if let Some(p) = farthest(e, pinned) {
            if p < last {
                assert(farthest(d0, pinned) == Some(p));
                assert(e[p] == d0[p]);
            } else {
                match farthest(d0, pinned) {
                    Some(q) => {
                        assert(e[q] == d0[q]);
                    },
                    None => {},
                }
            }
        }
    }
}

proof fn lemma_remove_distinct<T>(e: Seq<CachedPage<T>>, p: int)
    requires
        distinct_pages(e),
        0 <= p < e.len(),
    ensures
        distinct_pages(e.remove(p)),
        forall|x: CachedPage<T>| #[trigger] e.contains(x) && x != e[p] ==> e.remove(p).contains(x),
        forall|x: CachedPage<T>| #[trigger] e.remove(p).contains(x) ==> e.contains(x),
{
    let r = e.remove(p);
    assert forall|a: int, b: int| 0 <= a < b < r.len() implies r[a].index != r[b].index by {
        let a0 = if a < p { a } else { a + 1 };
        let b0 = if b < p { b } else { b + 1 };
        assert(r[a] == e[a0] && r[b] == e[b0]);
    }
    assert forall|x: CachedPage<T>| #[trigger] e.contains(x) && x != e[p] implies r.contains(x) by {
        let k = choose|k: int| 0 <= k < e.len() && e[k] == x;
        if k < p {
            assert(r[k] == x);
        } else {
            assert(k != p);
            assert(r[k - 1] == x);
        }
    }
    assert forall|x: CachedPage<T>| #[trigger] r.contains(x) implies e.contains(x) by {
        let k = choose|k: int| 0 <= k < r.len() && r[k] == x;
        if k < p {
            assert(e[k] == x);
        } else {
            assert(e[k + 1] == x);
        }
    }
}

/// Eviction takes the farthest pages first: every page it takes out is
/// unpinned and at least as far from the first pinned page as every
/// unpinned page it keeps.
pub proof fn lemma_evict_takes_farthest<T>(e: Seq<CachedPage<T>>, max: usize, budget: usize, pinned: (usize, usize))
    requires
        distinct_pages(e),
    ensures
        forall|x: CachedPage<T>, y: CachedPage<T>|
            #[trigger] e.contains(x) && !evict(e, max, budget, pinned).contains(x) && #[trigger] evict(
                e,
                max,
                budget,
                pinned,
            ).contains(y) && !is_pinned(y.index, pinned) ==> !is_pinned(x.index, pinned) && page_distance(
                y.index as int,
                pinned.0 as int,
            ) <= page_distance(x.index as int, pinned.0 as int),
    decreases e.len(),
{
    lemma_farthest_is_farthest(e, pinned);
    if over_limits(e, max, budget) && e.len() > 0 {
        if let Some(p) = farthest(e, pinned) {
            let r = e.remove(p);
            lemma_remove_distinct(e, p);
            lemma_evict_takes_farthest(r, max, budget, pinned);
            lemma_evict_result(r, max, budget, pinned);
            let out = evict(r, max, budget, pinned);
            assert(evict(e, max, budget, pinned) == out);
            assert forall|x: CachedPage<T>, y: CachedPage<T>|
                #[trigger] e.contains(x) && !out.contains(x) && #[trigger] out.contains(y) && !is_pinned(
                    y.index,
                    pinned,
                ) implies !is_pinned(x.index, pinned) && page_distance(y.index as int, pinned.0 as int)
                <= page_distance(x.index as int, pinned.0 as int) by {
                assert(r.contains(y));
                assert(e.contains(y));
                let ky = choose|k: int| 0 <= k < e.len() && e[k] == y;
                assert(!is_pinned(e[ky].index, pinned));
                if x == e[p] {
                } else {
                    assert(r.contains(x));
                }
            }
        }
    }
}

/// The cache `e` after the texture `tex` of page `idx` (of `size` bytes)
/// was stored as the most recent page, replacing an older texture of that
/// page, before any eviction.
pub open spec fn with_page<T>(e: Seq<CachedPage<T>>, idx: usize, size: usize, tex: T) -> Seq<CachedPage<T>> {
    without_page(e, idx).push(CachedPage { index: idx, size, texture: tex })
}

proof fn lemma_with_page_distinct<T>(e: Seq<CachedPage<T>>, idx: usize, size: usize, tex: T)
    requires
        distinct_pages(e),
    ensures
        distinct_pages(with_page(e, idx, size, tex)),
        forall|x: CachedPage<T>| #[trigger] with_page(e, idx, size, tex).contains(x) && x.index != idx ==> (e.contains(
            x,
        )),
{
    lemma_position_of(e, idx);
    let w = without_page(e, idx);
    let u = with_page(e, idx, size, tex);
    match position_of(e, idx) {
        Some(p) => {
            assert forall|k: int| 0 <= k < w.len() implies (#[trigger] w[k]).index != idx by {
                if k < p {
                    assert(w[k] == e[k]);
                } else {
                    assert(w[k] == e[k + 1]);
                }
            }
            assert forall|a: int, b: int| 0 <= a < b < w.len() implies w[a].index != w[b].index by {
                let ea = if a < p { a } else { a + 1 };
                let eb = if b < p { b } else { b + 1 };
                assert(w[a] == e[ea]);
                assert(w[b] == e[eb]);
            }
            assert forall|x: CachedPage<T>| w.contains(x) implies e.contains(x) by {
                let k = choose|k: int| 0 <= k < w.len() && w[k] == x;
                if k < p {
                    assert(e[k] == x);
                } else {
                    assert(e[k + 1] == x);
                }
            }
        },
        None => {},
    }
    assert forall|a: int, b: int| 0 <= a < b < u.len() implies u[a].index != u[b].index by {
        if b == u.len() - 1 {
            assert(u[a] == w[a]);
        } else {
            assert(u[a] == w[a] && u[b] == w[b]);
        }
    }
    assert forall|x: CachedPage<T>| #[trigger] u.contains(x) && x.index != idx implies e.contains(x) by {
        let k = choose|k: int| 0 <= k < u.len() && u[k] == x;
        assert(k < w.len());
        assert(w[k] == x);
        assert(w.contains(x));
    }
}

/// What storing a page keeps true of a cache whose page numbers are
/// distinct: page numbers stay distinct; afterwards the cache is within
/// `max` pages and `budget` bytes, or holds pinned pages only; a pinned
/// page is never evicted (nor the new page when it is pinned); every page
/// left is the new one or one that was there before, with its texture.
pub proof fn lemma_cache_push_law<T>(
    e: Seq<CachedPage<T>>,
    idx: usize,
    size: usize,
    tex: T,
    max: usize,
    budget: usize,
    pinned: (usize, usize),
)
    requires
        distinct_pages(e),
    ensures
        distinct_pages(evict(with_page(e, idx, size, tex), max, budget, pinned)),
        !over_limits(evict(with_page(e, idx, size, tex), max, budget, pinned), max, budget) || forall|k: int|
            0 <= k < evict(with_page(e, idx, size, tex), max, budget, pinned).len() ==> is_pinned(
                (#[trigger] evict(with_page(e, idx, size, tex), max, budget, pinned)[k]).index,
                pinned,
            ),
        forall|k: int|
            0 <= k < with_page(e, idx, size, tex).len() && is_pinned(
                (#[trigger] with_page(e, idx, size, tex)[k]).index,
                pinned,
            ) ==> evict(with_page(e, idx, size, tex), max, budget, pinned).contains(with_page(e, idx, size, tex)[k]),
        forall|x: CachedPage<T>|
            #[trigger] evict(with_page(e, idx, size, tex), max, budget, pinned).contains(x) ==> x == (CachedPage {
                index: idx,
                size,
                texture: tex,
            }) || (x.index != idx && e.contains(x)),
{
    lemma_with_page_distinct(e, idx, size, tex);
    let u = with_page(e, idx, size, tex);
    lemma_evict_result(u, max, budget, pinned);
    assert forall|x: CachedPage<T>| #[trigger] evict(u, max, budget, pinned).contains(x) implies x == (CachedPage {
        index: idx,
        size,
        texture: tex,
    }) || (x.index != idx && e.contains(x)) by {
        assert(u.contains(x));
        let k = choose|k: int| 0 <= k < u.len() && u[k] == x;
        if k < u.len() - 1 {
            assert(u[k].index != u[u.len() - 1].index);
        }
    }
}

/// The textures of decoded pages, kept within a number of pages and a number
/// of bytes: the textures by page number, and the page numbers with their
/// sizes in the order the pages were last stored, oldest first.
pub struct PageCache<T> {
    order: Vec<(usize, usize)>,
    textures: HashMap<usize, T>,
    total_bytes: usize,
}

/// The page of `textures` listed as `e` (its number and size).
pub open spec fn listed_page<T>(e: (usize, usize), textures: Map<usize, T>) -> CachedPage<T> {
    CachedPage { index: e.0, size: e.1, texture: textures[e.0] }
}

/// The pages listed in `order`, with their textures from `textures`.
pub open spec fn listed_pages<T>(order: Seq<(usize, usize)>, textures: Map<usize, T>) -> Seq<CachedPage<T>> {
    order.map_values(|e: (usize, usize)| listed_page(e, textures))
}

proof fn lemma_listed_pages_other_texture<T>(order: Seq<(usize, usize)>, t: Map<usize, T>, t2: Map<usize, T>)
    requires
        forall|i: int| 0 <= i < order.len() ==> t2[(#[trigger] order[i]).0] == t[order[i].0],
    ensures
        listed_pages(order, t2) == listed_pages(order, t),
{
    assert(listed_pages(order, t2) =~= listed_pages(order, t));
}

impl<T> PageCache<T> {
    /// The cached pages, oldest first.
    pub closed spec fn pages(&self) -> Seq<CachedPage<T>> {
        listed_pages(self.order@, self.textures@)
    }

    /// The cache's invariant: page numbers are distinct, the textures are
    /// held for exactly the listed pages, and the byte count is the sum of
    /// the pages' sizes.
    pub closed spec fn wf(&self) -> bool {
        &&& distinct_pages(self.pages())
        &&& forall|k: usize| #[trigger] self.textures@.contains_key(k) <==> exists|i: int|
            0 <= i < self.order@.len() && self.order@[i].0 == k
        &&& self.total_bytes == total_size(self.pages())
    }

    /// An empty cache.
    pub fn new() -> (r: Self)
        ensures
            r.wf(),
            r.pages().len() == 0,
    {
        PageCache { order: Vec::new(), textures: HashMap::new(), total_bytes: 0 }
    }

    /// Total size of the cached pages in bytes.
    pub fn total_bytes(&self) -> (r: usize)
        requires
            self.wf(),
        ensures
            r == total_size(self.pages()),
    {
        self.total_bytes
    }

    /// Number of cached pages.
    pub fn len(&self) -> (r: usize)
        ensures
            r == self.pages().len(),
    {
        self.order.len()
    }

    /// The position of page `idx` in the cache.
    fn find(&self, idx: usize) -> (r: Option<usize>)
        ensures
            match r {
                Some(p) => position_of(self.pages(), idx) == Some(p as int),
                None => position_of(self.pages(), idx) is None,
            },
    {
        let ghost ps = self.pages();
        let mut k = self.order.len();
        assert(ps.subrange(0, k as int) =~= ps);
        while k > 0
            invariant
                k <= self.order.len(),
                ps == self.pages(),
                position_of(ps, idx) == position_of(ps.subrange(0, k as int), idx),
            decreases k,
        {
            assert(ps[k - 1].index == self.order@[k - 1].0);
            if self.order[k - 1].0 == idx {
                return Some(k - 1);
            }
            assert(ps.subrange(0, k as int).drop_last() =~= ps.subrange(0, k - 1));
            k -= 1;
        }
        None
    }

    /// Whether page `idx` is cached.
    pub fn contains(&self, idx: usize) -> (r: bool)
        ensures
            r == (exists|k: int| 0 <= k < self.pages().len() && (#[trigger] self.pages()[k]).index == idx),
    {
        proof {
            lemma_position_of(self.pages(), idx);
        }
        self.find(idx).is_some()
    }

    /// The texture of page `idx`, if cached.
    pub fn get(&self, idx: usize) -> (r: Option<&T>)
        requires
            self.wf(),
        ensures
            match position_of(self.pages(), idx) {
                Some(p) => r == Some(&self.pages()[p].texture),
                None => r is None,
            },
    {
        broadcast use vstd::std_specs::hash::group_hash_axioms;

        proof {
            lemma_position_of(self.pages(), idx);
            if let Some(p) = position_of(self.pages(), idx) {
                assert(self.order@[p].0 == idx);
            } else {
                if self.textures@.contains_key(idx) {
                    let i = choose|i: int| 0 <= i < self.order@.len() && self.order@[i].0 == idx;
                    assert(self.pages()[i].index == idx);
                }
            }
        }
        self.textures.get(&idx)
    }

    /// The position of the page to evict first (see `farthest`).
    fn farthest_position(&self, pinned: (usize, usize)) -> (r: Option<usize>)
        ensures
            match r {
                Some(p) => farthest(self.pages(), pinned) == Some(p as int),
                None => farthest(self.pages(), pinned) is None,
            },
    {
        let ghost ps = self.pages();
        let mut best: Option<usize> = None;
        let mut best_dist: usize = 0;
        let mut pos: usize = 0;
        while pos < self.order.len()
            invariant
                0 <= pos <= self.order.len(),
                ps == self.pages(),
                match best {
                    Some(b) => farthest(ps.subrange(0, pos as int), pinned) == Some(b as int) && b < pos && best_dist
                        == page_distance(ps[b as int].index as int, pinned.0 as int) && best_dist > 0,
                    None => farthest(ps.subrange(0, pos as int), pinned) is None && best_dist == 0,
                },
            decreases self.order.len() - pos,
        {
            let i = self.order[pos].0;
            proof {
                let s1 = ps.subrange(0, pos + 1);
                assert(s1.drop_last() =~= ps.subrange(0, pos as int));
                assert(s1[pos as int] == ps[pos as int]);
                assert(ps[pos as int].index == i);
                if let Some(b) = best {
                    assert(s1[b as int] == ps[b as int]);
                }
            }
            if !(i == pinned.0 || i == pinned.1) {
                let d = if i >= pinned.0 {
                    i - pinned.0
                } else {
                    pinned.0 - i
                };
                if d > best_dist {
                    best_dist = d;
                    best = Some(pos);
                }
            }
            pos += 1;
        }
        assert(ps.subrange(0, ps.len() as int) =~= ps);
        best
    }

    /// Takes the page at position `p` out of the cache.
    fn remove_at(&mut self, p: usize)
        requires
            old(self).wf(),
            p < old(self).pages().len(),
        ensures
            final(self).wf(),
            final(self).pages() == old(self).pages().remove(p as int),
    {
        broadcast use vstd::std_specs::hash::group_hash_axioms;

        let ghost e = self.pages();
        let ghost t0 = self.textures@;
        let ghost o0 = self.order@;
        proof {
            lemma_total_remove(e, p as int);
            lemma_total_nonneg(e.remove(p as int));
        }
        let (k, size) = self.order.remove(p);
        assert(e[p as int].index == k && e[p as int].size == size);
        self.textures.remove(&k);
        self.total_bytes = self.total_bytes - size;
        proof {
            let o1 = self.order@;
            assert(o1 =~= o0.remove(p as int));
            assert forall|i: int| 0 <= i < o1.len() implies self.textures@[(#[trigger] o1[i]).0] == t0[o1[i].0] && (
            o1[i]).0 != k by {
                let i0 = if i < p { i } else { i + 1 };
                assert(o1[i] == o0[i0]);
                assert(e[i0].index == o0[i0].0);
                if i0 != p {
                    assert(e[i0].index != e[p as int].index) by {
                        if i0 < p {
                        } else {
                        }
                    }
                }
            }
            lemma_listed_pages_other_texture(o1, t0, self.textures@);
            assert(listed_pages(o1, t0) =~= e.remove(p as int));
            let r = e.remove(p as int);
            assert forall|a: int, b: int| 0 <= a < b < r.len() implies r[a].index != r[b].index by {
                let a0 = if a < p { a } else { a + 1 };
                let b0 = if b < p { b } else { b + 1 };
                assert(r[a] == e[a0] && r[b] == e[b0]);
            }
            assert forall|j: usize| #[trigger] self.textures@.contains_key(j) <==> exists|i: int|
                0 <= i < o1.len() && o1[i].0 == j by {
                if self.textures@.contains_key(j) {
                    assert(t0.contains_key(j) && j != k);
                    let i0 = choose|i: int| 0 <= i < o0.len() && o0[i].0 == j;
                    assert(i0 != p);
                    let i = if i0 < p { i0 } else { i0 - 1 };
                    assert(o1[i] == o0[i0]);
                }
                if exists|i: int| 0 <= i < o1.len() && o1[i].0 == j {
                    let i = choose|i: int| 0 <= i < o1.len() && o1[i].0 == j;
                    let i0 = if i < p { i } else { i + 1 };
                    assert(o1[i] == o0[i0]);
                    assert(j != k);
                }
            }
        }
    }

    /// Stores the texture of page `idx` (of `size_bytes` bytes) as the most
    /// recent page, replacing an older texture of that page, then evicts
    /// pages, farthest from `pinned.0` first and never a pinned one, while the
    /// cache holds more than `max` pages or more than `budget_bytes` bytes.
    pub fn cache_push(&mut self, idx: usize, tex: T, size_bytes: usize, max: usize, budget_bytes: usize, pinned: (usize, usize))
        requires
            old(self).wf(),
            total_size(without_page(old(self).pages(), idx)) + size_bytes <= usize::MAX,
        ensures
            final(self).wf(),
            final(self).pages() == evict(
                without_page(old(self).pages(), idx).push(CachedPage { index: idx, size: size_bytes, texture: tex }),
                max,
                budget_bytes,
                pinned,
            ),
    {
        broadcast use vstd::std_specs::hash::group_hash_axioms;

        let ghost e0 = self.pages();
        proof {
            lemma_position_of(e0, idx);
        }
        match self.find(idx) {
            Some(p) => {
                self.remove_at(p);
            },
            None => {},
        }
        let ghost e1 = self.pages();
        assert(e1 == without_page(e0, idx));
        proof {
            lemma_position_of(e0, idx);
            assert forall|i: int| 0 <= i < e1.len() implies (#[trigger] e1[i]).index != idx by {
                match position_of(e0, idx) {
                    Some(p) => {
                        let i0 = if i < p { i } else { i + 1 };
                        assert(e1[i] == e0[i0]);
                        if i0 < p {
                            assert(e0[i0].index != e0[p].index);
                        } else {
                            assert(e0[p].index != e0[i0].index);
                        }
                    },
                    None => {
                        assert(e1 == e0);
                    },
                }
            }
        }
        let ghost t1 = self.textures@;
        let ghost o1 = self.order@;
        let page = CachedPage { index: idx, size: size_bytes, texture: tex };
        let ghost gp = page;
        proof {
            lemma_total_push(e1, gp);
        }
        self.textures.insert(idx, page.texture);
        self.order.push((idx, size_bytes));
        self.total_bytes = self.total_bytes + size_bytes;
        proof {
            let o2 = self.order@;
            let t2 = self.textures@;
            assert forall|i: int| 0 <= i < o1.len() implies t2[(#[trigger] o1[i]).0] == t1[o1[i].0] by {
                assert(e1[i].index == o1[i].0);
            }
            lemma_listed_pages_other_texture(o1, t1, t2);
            assert(o2 =~= o1.push((idx, size_bytes)));
            assert(listed_pages(o2, t2) =~= listed_pages(o1, t2).push(gp));
            assert(self.pages() =~= e1.push(gp));
            let e2 = self.pages();
            assert forall|a: int, b: int| 0 <= a < b < e2.len() implies e2[a].index != e2[b].index by {
                if b == e2.len() - 1 {
                    assert(e2[a] == e1[a]);
                } else {
                    assert(e2[a] == e1[a] && e2[b] == e1[b]);
                }
            }
            assert forall|j: usize| #[trigger] t2.contains_key(j) <==> exists|i: int|
                0 <= i < o2.len() && o2[i].0 == j by {
                if t2.contains_key(j) && j != idx {
                    assert(t1.contains_key(j));
                    let i = choose|i: int| 0 <= i < o1.len() && o1[i].0 == j;
                    assert(o2[i] == o1[i]);
                }
                if j == idx {
                    assert(o2[o1.len() as int].0 == j);
                }
                if exists|i: int| 0 <= i < o2.len() && o2[i].0 == j {
                    let i = choose|i: int| 0 <= i < o2.len() && o2[i].0 == j;
                    if i < o1.len() {
                        assert(o2[i] == o1[i]);
                    }
                }
            }
        }
        loop
            invariant
                self.wf(),
                evict(self.pages(), max, budget_bytes, pinned) == evict(
                    without_page(e0, idx).push(CachedPage { index: idx, size: size_bytes, texture: tex }),
                    max,
                    budget_bytes,
                    pinned,
                ),
            ensures
                evict(self.pages(), max, budget_bytes, pinned) == self.pages(),
            decreases self.pages().len(),
        {
            if !((self.order.len() > max || self.total_bytes > budget_bytes) && self.order.len() > 0) {
                break;
            }
            proof {
                lemma_farthest(self.pages(), pinned);
            }
            match self.farthest_position(pinned) {
                Some(p) => {
                    self.remove_at(p);
                },
                None => {
                    break;
                },
            }
        }
    }

    /// Empties the cache.
    pub fn cache_clear(&mut self)
        ensures
            final(self).wf(),
            final(self).pages().len() == 0,
    {
        self.order.clear();
        self.textures.clear();
        self.total_bytes = 0;
    }
}

/// The pages kept in the cache whatever happens: the page shown and, in
/// two-page mode, the one after it; none (the largest index, which no page
/// has) when no page is shown.
pub fn pinned_pages(shown: Option<usize>, is_double: bool) -> (r: (usize, usize))
    requires
        shown matches Some(i) ==> i < usize::MAX,
    ensures
        r == match shown {
            Some(i) => (i, if is_double {
                (i + 1) as usize
            } else {
                usize::MAX
            }),
            None => (usize::MAX, usize::MAX),
        },
{
    match shown {
        Some(i) => (i, if is_double {
            i + 1
        } else {
            usize::MAX
        }),
        None => (usize::MAX, usize::MAX),
    }
}

/// The bytes the decoded pages may take: `budget_mb` mebibytes, twice as
/// many for a strip; no limit when the budget is 0.
pub fn texture_budget(budget_mb: u32, strip: bool) -> (r: usize)
    requires
        budget_mb as int * 2 * 1048576 <= usize::MAX,
    ensures
        r == if budget_mb > 0 {
            budget_mb as int * (if strip {
                2int
            } else {
                1int
            }) * 1048576
        } else {
            usize::MAX as int
        },
{
    if budget_mb > 0 {
        let mult: usize = if strip {
            2
        } else {
            1
        };
        (budget_mb as usize * mult) * 1024 * 1024
    } else {
        usize::MAX
    }
}

/// The bytes of a decoded page of `w` by `h` pixels, four bytes each.
pub fn page_bytes(w: u32, h: u32) -> (r: usize)
    requires
        w as int * h as int * 4 <= usize::MAX,
    ensures
        r == w as int * h as int * 4,
{
    assert(w as int * h as int * 4 <= usize::MAX);
    (w as usize * h as usize) * 4
}

} // verus!
