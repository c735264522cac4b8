use vstd::prelude::*;
use crate::text::{copy_str, same_text, views_of};

verus! {

/// Position of the entry of `entries` whose key is `k`.
pub open spec fn key_position<T>(entries: Seq<(Seq<char>, T)>, k: Seq<char>) -> Option<int>
    decreases entries.len(),
{
    if entries.len() == 0 {
        None
    } else if entries.last().0 == k {
        Some(entries.len() - 1)
    } else {
        key_position(entries.drop_last(), k)
    }
}

/// `entries` with `t` held for `k`: in place when `k` is there, else at
/// the end.
pub open spec fn put<T>(entries: Seq<(Seq<char>, T)>, k: Seq<char>, t: T) -> Seq<(Seq<char>, T)> {
    match key_position(entries, k) {
        Some(p) => entries.update(p, (k, t)),
        None => entries.push((k, t)),
    }
}

/// Drops keys from the front of `order` until one of them is held in
/// `entries`, and drops that entry: the oldest cover still held goes.
pub open spec fn evict_oldest<T>(entries: Seq<(Seq<char>, T)>, order: Seq<Seq<char>>) -> (
    Seq<(Seq<char>, T)>,
    Seq<Seq<char>>,
)
    decreases order.len(),
{
    if order.len() == 0 {
        (entries, order)
    } else {
        match key_position(entries, order[0]) {
            Some(p) => (entries.remove(p), order.drop_first()),
            None => evict_oldest(entries, order.drop_first()),
        }
    }
}

/// The covers held and the order they came in, after `t` came for `k`
/// with at most `max` covers held: a cover that came again keeps its
/// place among the held ones and is listed again in the order; when over
/// the limit, the oldest one still held goes.
pub open spec fn received<T>(entries: Seq<(Seq<char>, T)>, order: Seq<Seq<char>>, k: Seq<char>, t: T, max: u32) -> (
    Seq<(Seq<char>, T)>,
    Seq<Seq<char>>,
) {
    let e1 = put(entries, k, t);
    let o1 = order.push(k);
    if e1.len() > max {
        evict_oldest(e1, o1)
    } else {
        (e1, o1)
    }
}

/// No key is held twice.
pub open spec fn distinct_keys<T>(entries: Seq<(Seq<char>, T)>) -> bool {
    forall|a: int, b: int| 0 <= a < b < entries.len() ==> (#[trigger] entries[a]).0 != (#[trigger] entries[b]).0
}

proof fn lemma_key_position<T>(entries: Seq<(Seq<char>, T)>, k: Seq<char>)
    ensures
        match key_position(entries, k) {
            Some(p) => 0 <= p < entries.len() && entries[p].0 == k,
            None => forall|i: int| 0 <= i < entries.len() ==> (#[trigger] entries[i]).0 != k,
        },
    decreases entries.len(),
{
    if entries.len() > 0 && entries.last().0 != k {
        lemma_key_position(entries.drop_last(), k);
        assert forall|i: int| 0 <= i < entries.len() - 1 implies entries[i] == entries.drop_last()[i] by {}
    }
}

proof fn lemma_put_distinct<T>(entries: Seq<(Seq<char>, T)>, k: Seq<char>, t: T)
    requires
        distinct_keys(entries),
    ensures
        distinct_keys(put(entries, k, t)),
        key_position(entries, k) is None ==> put(entries, k, t).len() == entries.len() + 1,
        key_position(entries, k) is Some ==> put(entries, k, t).len() == entries.len(),
{
    lemma_key_position(entries, k);
    let r = put(entries, k, t);
    match key_position(entries, k) {
        Some(p) => {
            assert forall|a: int, b: int| 0 <= a < b < r.len() implies (#[trigger] r[a]).0 != (#[trigger] r[b]).0 by {
                assert(r[a].0 == entries[a].0);
                assert(r[b].0 == entries[b].0);
            }
        },
        None => {
            assert forall|a: int, b: int| 0 <= a < b < r.len() implies (#[trigger] r[a]).0 != (#[trigger] r[b]).0 by {
                if b == entries.len() {
                    assert(r[a] == entries[a]);
                } else {
                    assert(r[a] == entries[a] && r[b] == entries[b]);
                }
            }
        },
    }
}

proof fn lemma_evict_distinct<T>(entries: Seq<(Seq<char>, T)>, order: Seq<Seq<char>>)
    requires
        distinct_keys(entries),
    ensures
        distinct_keys(evict_oldest(entries, order).0),
        evict_oldest(entries, order).0.len() <= entries.len(),
        evict_oldest(entries, order).0.len() + 1 >= entries.len(),
    decreases order.len(),
{
    if order.len() > 0 {
        lemma_key_position(entries, order[0]);
        match key_position(entries, order[0]) {
            Some(p) => {
                let r = entries.remove(p);
                assert forall|a: int, b: int| 0 <= a < b < r.len() implies (#[trigger] r[a]).0 != (#[trigger] r[b]).0 by {
                    let a0 = if a < p { a } else { a + 1 };
                    let b0 = if b < p { b } else { b + 1 };
                    assert(r[a] == entries[a0] && r[b] == entries[b0]);
                }
            },
            None => {
                lemma_evict_distinct(entries, order.drop_first());
            },
        }
    }
}

/// Every key held is listed in the order.
pub open spec fn held_in_order<T>(entries: Seq<(Seq<char>, T)>, order: Seq<Seq<char>>) -> bool {
    forall|i: int| 0 <= i < entries.len() ==> order.contains(#[trigger] entries[i].0)
}

proof fn lemma_evict_one<T>(entries: Seq<(Seq<char>, T)>, order: Seq<Seq<char>>)
    requires
        distinct_keys(entries),
        held_in_order(entries, order),
        entries.len() > 0,
    ensures
        evict_oldest(entries, order).0.len() == entries.len() - 1,
        held_in_order(evict_oldest(entries, order).0, evict_oldest(entries, order).1),
    decreases order.len(),
{
    if order.len() == 0 {
        assert(order.contains(entries[0].0));
    } else {
        lemma_key_position(entries, order[0]);
        match key_position(entries, order[0]) {
            Some(p) => {
                let r = entries.remove(p);
                let o = order.drop_first();
                assert forall|i: int| 0 <= i < r.len() implies o.contains(#[trigger] r[i].0) by {
                    let i0 = if i < p { i } else { i + 1 };
                    assert(r[i] == entries[i0]);
                    assert(entries[i0].0 != entries[p].0);
                    assert(order.contains(entries[i0].0));
                    let j = choose|j: int| 0 <= j < order.len() && order[j] == entries[i0].0;
                    assert(j != 0);
                    assert(o[j - 1] == order[j]);
                }
            },
            None => {
                let o = order.drop_first();
                assert forall|i: int| 0 <= i < entries.len() implies o.contains(#[trigger] entries[i].0) by {
                    assert(order.contains(entries[i].0));
                    let j = choose|j: int| 0 <= j < order.len() && order[j] == entries[i].0;
                    assert(j != 0);
                    assert(o[j - 1] == order[j]);
                }
                lemma_evict_one(entries, o);
            },
        }
    }
}

proof fn lemma_put_push_held<T>(entries: Seq<(Seq<char>, T)>, order: Seq<Seq<char>>, k: Seq<char>, t: T)
    requires
        distinct_keys(entries),
        held_in_order(entries, order),
    ensures
        distinct_keys(put(entries, k, t)),
        held_in_order(put(entries, k, t), order.push(k)),
{
    lemma_put_distinct(entries, k, t);
    lemma_key_position(entries, k);
    let e1 = put(entries, k, t);
    let o1 = order.push(k);
    assert forall|i: int| 0 <= i < e1.len() implies o1.contains(#[trigger] e1[i].0) by {
        match key_position(entries, k) {
            Some(p) => {
                if i == p {
                    assert(o1[order.len() as int] == k);
                } else {
                    assert(e1[i] == entries[i]);
                    let j = choose|j: int| 0 <= j < order.len() && order[j] == entries[i].0;
                    assert(o1[j] == order[j]);
                }
            },
            None => {
                if i == entries.len() {
                    assert(o1[order.len() as int] == k);
                } else {
                    assert(e1[i] == entries[i]);
                    let j = choose|j: int| 0 <= j < order.len() && order[j] == entries[i].0;
                    assert(o1[j] == order[j]);
                }
            },
        }
    }
}

/// No more than `max` covers are ever held: when a cover that comes
/// passes the limit, exactly one cover goes, the first in the order that
/// is still held; every cover held stays listed in the order.
pub proof fn lemma_received_bounded<T>(entries: Seq<(Seq<char>, T)>, order: Seq<Seq<char>>, k: Seq<char>, t: T, max: u32)
    requires
        distinct_keys(entries),
        held_in_order(entries, order),
        entries.len() <= max,
    ensures
        received(entries, order, k, t, max).0.len() <= max,
        distinct_keys(received(entries, order, k, t, max).0),
        held_in_order(received(entries, order, k, t, max).0, received(entries, order, k, t, max).1),
{
    lemma_put_push_held(entries, order, k, t);
    lemma_put_distinct(entries, k, t);
    let e1 = put(entries, k, t);
    let o1 = order.push(k);
    if e1.len() > max {
        lemma_evict_one(e1, o1);
        lemma_evict_distinct(e1, o1);
    }
}

/// The covers of one kind shown on screen: decoded covers by key, the order
/// in which they came, and the keys being loaded.
pub struct CoverCache<T> {
    textures: Vec<(String, T)>,
    order: Vec<String>,
    loading: Vec<String>,
}

impl<T> CoverCache<T> {
    /// The covers held, by key.
    pub closed spec fn entries(&self) -> Seq<(Seq<char>, T)> {
        self.textures@.map_values(|e: (String, T)| (e.0@, e.1))
    }

    /// The keys in the order their covers came, oldest first.
    pub closed spec fn order_spec(&self) -> Seq<Seq<char>> {
        views_of(self.order@)
    }

    /// The keys being loaded.
    pub closed spec fn loading_spec(&self) -> Seq<Seq<char>> {
        views_of(self.loading@)
    }

    /// No key held twice, none loading twice.
    pub closed spec fn wf(&self) -> bool {
        &&& distinct_keys(self.entries())
        &&& held_in_order(self.entries(), self.order_spec())
        &&& forall|a: int, b: int|
            0 <= a < b < self.loading@.len() ==> (#[trigger] self.loading@[a])@ != (#[trigger] self.loading@[b])@
    }

    /// No covers.
    pub fn new() -> (r: Self)
        ensures
            r.wf(),
            r.entries().len() == 0,
            r.order_spec().len() == 0,
            r.loading_spec().len() == 0,
    {
        CoverCache { textures: Vec::new(), order: Vec::new(), loading: Vec::new() }
    }

    fn find(&self, k: &str) -> (r: Option<usize>)
        ensures
            match key_position(self.entries(), k@) {
                Some(p) => r matches Some(i) && i == p,
                None => r is None,
            },
    {
        let mut i = self.textures.len();
        let ghost e = self.entries();
        assert(e.subrange(0, i as int) =~= e);
        while i > 0
            invariant
                i <= self.textures@.len(),
                e == self.entries(),
                key_position(e, k@) == key_position(e.subrange(0, i as int), k@),
            decreases i,
        {
            assert(e.subrange(0, i as int).last() == e[i - 1]);
            if same_text(self.textures[i - 1].0.as_str(), k) {
                return Some(i - 1);
            }
            assert(e.subrange(0, i as int).drop_last() =~= e.subrange(0, i - 1));
            i -= 1;
        }
        None
    }

    /// Whether the cover for `k` is held.
    pub fn contains(&self, k: &str) -> (r: bool)
        ensures
            r == key_position(self.entries(), k@) is Some,
    {
        self.find(k).is_some()
    }

    /// The cover held for `k`.
    pub fn get(&self, k: &str) -> (r: Option<&T>)
        ensures
            match key_position(self.entries(), k@) {
                Some(p) => r matches Some(t) && *t == self.entries()[p].1,
                None => r is None,
            },
    {
        proof {
            lemma_key_position(self.entries(), k@);
        }
        match self.find(k) {
            Some(i) => Some(&self.textures[i].1),
            None => None,
        }
    }

    /// Whether the cover for `k` is being loaded.
    pub fn is_loading(&self, k: &str) -> (r: bool)
        ensures
            r == self.loading_spec().contains(k@),
    {
        let mut i: usize = 0;
        while i < self.loading.len()
            invariant
                0 <= i <= self.loading@.len(),
                forall|j: int| 0 <= j < i ==> self.loading@[j]@ != k@,
            decreases self.loading@.len() - i,
        {
            if same_text(self.loading[i].as_str(), k) {
                assert(self.loading_spec()[i as int] == k@);
                return true;
            }
            i += 1;
        }
        assert(!self.loading_spec().contains(k@)) by {
            if self.loading_spec().contains(k@) {
                let j = choose|j: int| 0 <= j < self.loading_spec().len() && self.loading_spec()[j] == k@;
                assert(self.loading@[j]@ == k@);
            }
        }
        false
    }

    /// Starts loading the cover for `k`, unless it is held or being
    /// loaded.  Returns whether a load is to be started.
    pub fn start_loading(&mut self, k: &str) -> (r: bool)
        requires
            old(self).wf(),
        ensures
            final(self).wf(),
            r == (key_position(old(self).entries(), k@) is None && !old(self).loading_spec().contains(k@)),
            final(self).loading_spec() == if r {
                old(self).loading_spec().push(k@)
            } else {
                old(self).loading_spec()
            },
            final(self).entries() == old(self).entries(),
            final(self).order_spec() == old(self).order_spec(),
    {
        if self.contains(k) || self.is_loading(k) {
            return false;
        }
        let ghost l0 = self.loading@;
        self.loading.push(copy_str(k));
        proof {
            assert(views_of(self.loading@) =~= views_of(l0).push(k@));
            assert forall|a: int, b: int| 0 <= a < b < self.loading@.len() implies (#[trigger] self.loading@[a])@
                != (#[trigger] self.loading@[b])@ by {
                if b == l0.len() {
                    assert(views_of(l0)[a] == l0[a]@);
                }
            }
        }
        true
    }

    fn loading_index(&self, k: &str) -> (r: Option<usize>)
        ensures
            match r {
                Some(i) => i < self.loading@.len() && self.loading@[i as int]@ == k@,
                None => forall|j: int| 0 <= j < self.loading@.len() ==> (#[trigger] self.loading@[j])@ != k@,
            },
    {
        let mut i: usize = 0;
        while i < self.loading.len()
            invariant
                0 <= i <= self.loading@.len(),
                forall|j: int| 0 <= j < i ==> (#[trigger] self.loading@[j])@ != k@,
            decreases self.loading@.len() - i,
        {
            if same_text(self.loading[i].as_str(), k) {
                return Some(i);
            }
            i += 1;
        }
        None
    }

    fn stop_loading(&mut self, k: &str)
        requires
            old(self).wf(),
        ensures
            final(self).wf(),
            !final(self).loading_spec().contains(k@),
            forall|j: Seq<char>| j != k@ ==> (final(self).loading_spec().contains(j) <==> old(self).loading_spec().contains(j)),
            final(self).entries() == old(self).entries(),
            final(self).order_spec() == old(self).order_spec(),
    {
        match self.loading_index(k) {
            Some(i) => {
                let ghost l0 = self.loading@;
                self.loading.remove(i);
                proof {
                    let l1 = self.loading@;
                    assert(l1 =~= l0.remove(i as int));
                    assert forall|a: int, b: int| 0 <= a < b < l1.len() implies (#[trigger] l1[a])@ != (#[trigger] l1[b])@ by {
                        let a0 = if a < i { a } else { a + 1 };
                        let b0 = if b < i { b } else { b + 1 };
                        assert(l1[a] == l0[a0] && l1[b] == l0[b0]);
                    }
                    assert forall|j: int| 0 <= j < l1.len() implies l1[j]@ != k@ by {
                        let j0 = if j < i { j } else { j + 1 };
                        assert(l1[j] == l0[j0]);
                        assert(l0[j0]@ != l0[i as int]@);
                    }
                    assert(!views_of(l1).contains(k@)) by {
                        if views_of(l1).contains(k@) {
                            let j = choose|j: int| 0 <= j < views_of(l1).len() && views_of(l1)[j] == k@;
                            assert(l1[j]@ == k@);
                        }
                    }
                    assert forall|s: Seq<char>| s != k@ implies (views_of(l1).contains(s) <==> views_of(l0).contains(s)) by {
                        if views_of(l1).contains(s) {
                            let j = choose|j: int| 0 <= j < views_of(l1).len() && views_of(l1)[j] == s;
                            let j0 = if j < i { j } else { j + 1 };
                            assert(l1[j] == l0[j0]);
                            assert(views_of(l0)[j0] == s);
                        }
                        if views_of(l0).contains(s) {
                            let j = choose|j: int| 0 <= j < views_of(l0).len() && views_of(l0)[j] == s;
                            assert(j != i);
                            let j1 = if j < i { j } else { j - 1 };
                            assert(l1[j1] == l0[j]);
                            assert(views_of(l1)[j1] == s);
                        }
                    }
                }
            },
            None => {
                assert(!self.loading_spec().contains(k@)) by {
                    if self.loading_spec().contains(k@) {
                        let j = choose|j: int| 0 <= j < self.loading_spec().len() && self.loading_spec()[j] == k@;
                        assert(self.loading@[j]@ == k@);
                    }
                }
            },
        }
    }

    /// Drops keys from the front of the order until one of them is held,
    /// and drops that cover.
    fn evict(&mut self)
        requires
            distinct_keys(old(self).entries()),
        ensures
            (final(self).entries(), final(self).order_spec()) == evict_oldest(
                old(self).entries(),
                old(self).order_spec(),
            ),
            final(self).loading@ == old(self).loading@,
        decreases old(self).order@.len(),
    {
        if self.order.len() == 0 {
            return;
        }
        let ghost o0 = self.order_spec();
        let k = self.order.remove(0);
        assert(views_of(self.order@) =~= o0.drop_first());
        assert(k@ == o0[0]);
        proof {
            lemma_key_position(self.entries(), k@);
        }
        match self.find(k.as_str()) {
            Some(p) => {
                let ghost t0 = self.textures@;
                let ghost e0 = self.entries();
                self.textures.remove(p);
                assert(self.textures@ =~= t0.remove(p as int));
                assert(self.entries() =~= e0.remove(p as int));
            },
            None => {
                self.evict();
            },
        }
    }

    /// A decoded cover of `w` by `h` pixels came for `k`: it is held unless
    /// it is empty, at most `max` covers being held (the oldest still held
    /// goes), and `k` is no longer being loaded.
    pub fn receive(&mut self, k: &str, texture: T, w: i32, h: i32, max: u32)
        requires
            old(self).wf(),
        ensures
            final(self).wf(),
            (final(self).entries(), final(self).order_spec()) == if w > 0 && h > 0 {
                received(old(self).entries(), old(self).order_spec(), k@, texture, max)
            } else {
                (old(self).entries(), old(self).order_spec())
            },
            !final(self).loading_spec().contains(k@),
            forall|j: Seq<char>|
                j != k@ ==> (final(self).loading_spec().contains(j) <==> old(self).loading_spec().contains(j)),
    {
        if w > 0 && h > 0 {
            let ghost e0 = self.entries();
            let ghost o0 = self.order_spec();
            proof {
                lemma_put_distinct(e0, k@, texture);
                lemma_put_push_held(e0, o0, k@, texture);
                lemma_key_position(e0, k@);
            }
            match self.find(k) {
                Some(p) => {
                    self.textures.set(p, (copy_str(k), texture));
                    assert(self.entries() =~= e0.update(p as int, (k@, texture)));
                },
                None => {
                    self.textures.push((copy_str(k), texture));
                    assert(self.entries() =~= e0.push((k@, texture)));
                },
            }
            self.order.push(copy_str(k));
            assert(self.order_spec() =~= o0.push(k@));
            if self.textures.len() > max as usize {
                proof {
                    lemma_evict_distinct(self.entries(), self.order_spec());
                    lemma_evict_one(self.entries(), self.order_spec());
                }
                self.evict();
            }
        }
        self.stop_loading(k);
    }
}

} // verus!
