use vstd::prelude::*;
use crate::natsort::{natural_compare, natural_order, lemma_natural_antisymmetric, lemma_natural_transitive};
use crate::text::chars_of;

verus! {

/// Something listed under a name that is sorted in natural order.
pub trait NaturalKey {
    spec fn natural_key(&self) -> Seq<char>;

    fn key_chars(&self) -> (r: Vec<char>)
        ensures
            r@ == self.natural_key(),
    ;
}

impl NaturalKey for String {
    open spec fn natural_key(&self) -> Seq<char> {
        self@
    }

    fn key_chars(&self) -> (r: Vec<char>) {
        chars_of(self.as_str())
    }
}

/// `perm` maps each position of `after` to the position in `before` that the
/// same element held: a one-to-one renumbering of positions.
pub open spec fn is_renumbering<T>(before: Seq<T>, after: Seq<T>, perm: Seq<int>) -> bool {
    &&& after.len() == before.len()
    &&& perm.len() == after.len()
    &&& forall|i: int| 0 <= i < perm.len() ==> 0 <= #[trigger] perm[i] < before.len()
    &&& forall|i: int, j: int| 0 <= i < j < perm.len() ==> perm[i] != perm[j]
    &&& forall|i: int| 0 <= i < after.len() ==> after[i] == before[#[trigger] perm[i]]
}

/// Every earlier element comes no later than every later one.
pub open spec fn naturally_sorted<T: NaturalKey>(s: Seq<T>) -> bool {
    forall|i: int, j: int|
        0 <= i < j < s.len() ==> natural_order(#[trigger] s[i].natural_key(), #[trigger] s[j].natural_key()) <= 0
}

/// `after` is `before` sorted in natural order by a stable sort: equivalent
/// elements keep their relative order.
pub open spec fn is_stable_natural_sort<T: NaturalKey>(before: Seq<T>, after: Seq<T>) -> bool {
    &&& naturally_sorted(after)
    &&& exists|perm: Seq<int>|
        #[trigger] is_renumbering(before, after, perm) && forall|i: int, j: int|
            0 <= i < j < after.len() && natural_order(after[i].natural_key(), after[j].natural_key())
                == 0 ==> #[trigger] perm[i] < #[trigger] perm[j]
}

/// Sorts `v` in natural order of the elements' names, keeping the relative
/// order of elements whose names are equivalent.
pub fn sort_natural<T: NaturalKey>(v: &mut Vec<T>)
    ensures
        is_stable_natural_sort(old(v)@, final(v)@),
{
    let ghost orig_v = v@;
    let len0 = v.len();
    let ghost n = v@.len();
    assert(n == len0);
    let mut out: Vec<T> = Vec::new();
    let mut keys: Vec<Vec<char>> = Vec::new();
    let ghost mut perm: Seq<int> = Seq::empty();
    let mut count: usize = 0;
    while v.len() > 0
        invariant
            n == orig_v.len(),
            n <= usize::MAX,
            count + v@.len() == n,
            v@ == orig_v.skip(count as int),
            out@.len() == count,
            keys@.len() == count,
            perm.len() == count,
            forall|i: int| 0 <= i < count ==> 0 <= #[trigger] perm[i] < count,
            forall|i: int, j: int| 0 <= i < j < count ==> perm[i] != perm[j],
            forall|i: int| 0 <= i < count ==> out@[i] == orig_v[#[trigger] perm[i]],
            forall|i: int| 0 <= i < count ==> (#[trigger] keys@[i])@ == out@[i].natural_key(),
            naturally_sorted(out@),
            forall|i: int, j: int|
                0 <= i < j < count && natural_order(out@[i].natural_key(), out@[j].natural_key())
                    == 0 ==> #[trigger] perm[i] < #[trigger] perm[j],
        decreases v@.len(),
    {
        let x = v.remove(0);
        let k = x.key_chars();
        assert(orig_v.skip(count as int)[0] == orig_v[count as int]);
        assert(v@ =~= orig_v.skip(count + 1));
        let mut p = out.len();
        while p > 0 && natural_compare(&keys[p - 1], &k) > 0
            invariant
                0 <= p <= out@.len(),
                keys@.len() == out@.len(),
                forall|i: int| 0 <= i < out@.len() ==> (#[trigger] keys@[i])@ == out@[i].natural_key(),
                forall|q: int| p <= q < out@.len() ==> natural_order(#[trigger] out@[q].natural_key(), k@) > 0,
            decreases p,
        {
            p -= 1;
        }
        proof {
            // everything before the insertion point comes no later than `x`
            assert forall|q: int| 0 <= q < p implies natural_order(#[trigger] out@[q].natural_key(), k@) <= 0 by {
                if q < p - 1 {
                    lemma_natural_transitive(out@[q].natural_key(), out@[p - 1].natural_key(), k@);
                }
            }
            assert forall|q: int| p <= q < out@.len() implies natural_order(k@, #[trigger] out@[q].natural_key()) < 0 by {
                lemma_natural_antisymmetric(k@, out@[q].natural_key());
            }
        }
        let ghost old_out = out@;
        let ghost old_keys = keys@;
        let ghost old_perm = perm;
        out.insert(p, x);
        keys.insert(p, k);
        proof {
            perm = old_perm.insert(p as int, count as int);
            assert forall|i: int| 0 <= i < out@.len() implies out@[i] == orig_v[#[trigger] perm[i]] by {
                if i < p {
                } else if i == p {
                } else {
                    assert(out@[i] == old_out[i - 1]);
                }
            }
            assert forall|i: int| 0 <= i < out@.len() implies (#[trigger] keys@[i])@ == out@[i].natural_key() by {
                if i > p {
                    assert(keys@[i] == old_keys[i - 1]);
                    assert(out@[i] == old_out[i - 1]);
                }
            }
            assert forall|i: int, j: int| 0 <= i < j < out@.len() implies natural_order(
                #[trigger] out@[i].natural_key(),
                #[trigger] out@[j].natural_key(),
            ) <= 0 && (natural_order(out@[i].natural_key(), out@[j].natural_key()) == 0 ==> perm[i]
                < perm[j]) by {
                if j < p {
                } else if j == p {
                } else if i < p {
                    assert(out@[j] == old_out[j - 1]);
                } else if i == p {
                    assert(out@[j] == old_out[j - 1]);
                } else {
                    assert(out@[i] == old_out[i - 1]);
                    assert(out@[j] == old_out[j - 1]);
                }
            }
            assert forall|i: int, j: int| 0 <= i < j < out@.len() implies perm[i] != perm[j] by {
                if i < p && j > p {
                    assert(perm[j] == old_perm[j - 1]);
                } else if i > p {
                    assert(perm[i] == old_perm[i - 1]);
                    assert(perm[j] == old_perm[j - 1]);
                }
            }
        }
        count += 1;
    }
    proof {
        assert(is_renumbering(orig_v, out@, perm));
    }
    *v = out;
}

/// Every position of `before` is the source of some position of `after`.
pub proof fn lemma_renumbering_onto<T>(before: Seq<T>, after: Seq<T>, perm: Seq<int>, m: int)
    requires
        is_renumbering(before, after, perm),
        0 <= m < before.len(),
    ensures
        exists|i: int| 0 <= i < perm.len() && perm[i] == m,
{
    broadcast use vstd::seq_lib::group_seq_properties;

    let n = before.len() as int;
    assert(perm.no_duplicates()) by {
        assert forall|i: int, j: int| 0 <= i < perm.len() && 0 <= j < perm.len() && i != j implies perm[i]
            != perm[j] by {
            if i < j {
            } else {
            }
        }
    }
    perm.unique_seq_to_set();
    vstd::set_lib::lemma_int_range(0, n);
    let range = vstd::set_lib::set_int_range(0, n);
    assert(perm.to_set().subset_of(range)) by {
        assert forall|x: int| perm.to_set().contains(x) implies range.contains(x) by {
            assert(perm.contains(x));
            let i = choose|i: int| 0 <= i < perm.len() && perm[i] == x;
            assert(0 <= perm[i] < n);
        }
    }
    perm.lemma_cardinality_of_set();
    vstd::set_lib::lemma_subset_equality(perm.to_set(), range);
    assert(range.contains(m));
    assert(perm.to_set().contains(m));
    assert(perm.contains(m));
}

/// Position `m` of `before` comes before position `k` in a stable natural
/// sort: its name is smaller, or equivalent and it stood earlier.
pub open spec fn sorts_before<T: NaturalKey>(before: Seq<T>, m: int, k: int) -> bool {
    natural_order(before[m].natural_key(), before[k].natural_key()) < 0 || (natural_order(
        before[m].natural_key(),
        before[k].natural_key(),
    ) == 0 && m < k)
}

proof fn lemma_sorts_before_asymmetric<T: NaturalKey>(before: Seq<T>, m: int, k: int)
    requires
        sorts_before(before, m, k),
    ensures
        !sorts_before(before, k, m),
{
    lemma_natural_antisymmetric(before[m].natural_key(), before[k].natural_key());
}

proof fn lemma_stable_increasing<T: NaturalKey>(before: Seq<T>, after: Seq<T>, perm: Seq<int>, i: int, j: int)
    requires
        naturally_sorted(after),
        is_renumbering(before, after, perm),
        forall|a: int, b: int|
            0 <= a < b < after.len() && natural_order(after[a].natural_key(), after[b].natural_key()) == 0
                ==> #[trigger] perm[a] < #[trigger] perm[b],
        0 <= i < j < after.len(),
    ensures
        sorts_before(before, perm[i], perm[j]),
{
    assert(after[i] == before[perm[i]]);
    assert(after[j] == before[perm[j]]);
    assert(natural_order(after[i].natural_key(), after[j].natural_key()) <= 0);
}

proof fn lemma_renumberings_agree<T: NaturalKey>(
    before: Seq<T>,
    before2: Seq<T>,
    a: Seq<T>,
    pa: Seq<int>,
    b: Seq<T>,
    pb: Seq<int>,
    i: int,
)
    requires
        before2.len() == before.len(),
        forall|k: int| 0 <= k < before.len() ==> #[trigger] before2[k].natural_key() == before[k].natural_key(),
        naturally_sorted(a),
        naturally_sorted(b),
        is_renumbering(before, a, pa),
        is_renumbering(before2, b, pb),
        forall|x: int, y: int|
            0 <= x < y < a.len() && natural_order(a[x].natural_key(), a[y].natural_key()) == 0
                ==> #[trigger] pa[x] < #[trigger] pa[y],
        forall|x: int, y: int|
            0 <= x < y < b.len() && natural_order(b[x].natural_key(), b[y].natural_key()) == 0
                ==> #[trigger] pb[x] < #[trigger] pb[y],
        0 <= i < a.len(),
    ensures
        forall|k: int| 0 <= k <= i ==> pa[k] == pb[k],
    decreases i,
{
    if i > 0 {
        lemma_renumberings_agree(before, before2, a, pa, b, pb, i - 1);
    }
    if pa[i] != pb[i] {
        let m = pa[i];
        let m2 = pb[i];
        lemma_renumbering_onto(before2, b, pb, m);
        let j = choose|j: int| 0 <= j < pb.len() && pb[j] == m;
        lemma_renumbering_onto(before, a, pa, m2);
        let j2 = choose|j2: int| 0 <= j2 < pa.len() && pa[j2] == m2;
        if j < i {
            assert(pa[j] == pb[j]);
        }
        if j2 < i {
            assert(pa[j2] == pb[j2]);
        }
        assert(j > i);
        assert(j2 > i);
        lemma_stable_increasing(before2, b, pb, i, j);
        assert(before2[m2].natural_key() == before[m2].natural_key());
        assert(before2[m].natural_key() == before[m].natural_key());
        lemma_stable_increasing(before, a, pa, i, j2);
        lemma_sorts_before_asymmetric(before, m2, m);
    }
}

/// Stable natural sorts of two lists whose names agree place the same
/// positions alike: position `i` of each sorted list comes from the same
/// position of its unsorted list.
pub proof fn lemma_stable_sorts_agree<T: NaturalKey>(before: Seq<T>, before2: Seq<T>, a: Seq<T>, b: Seq<T>)
    requires
        before2.len() == before.len(),
        forall|k: int| 0 <= k < before.len() ==> #[trigger] before2[k].natural_key() == before[k].natural_key(),
        is_stable_natural_sort(before, a),
        is_stable_natural_sort(before2, b),
    ensures
        a.len() == b.len(),
        exists|perm: Seq<int>|
            perm.len() == a.len() && forall|i: int|
                0 <= i < a.len() ==> 0 <= #[trigger] perm[i] < before.len() && a[i] == before[perm[i]] && b[i]
                    == before2[perm[i]],
{
    let pa = choose|perm: Seq<int>|
        #[trigger] is_renumbering(before, a, perm) && forall|i: int, j: int|
            0 <= i < j < a.len() && natural_order(a[i].natural_key(), a[j].natural_key()) == 0
                ==> #[trigger] perm[i] < #[trigger] perm[j];
    let pb = choose|perm: Seq<int>|
        #[trigger] is_renumbering(before2, b, perm) && forall|i: int, j: int|
            0 <= i < j < b.len() && natural_order(b[i].natural_key(), b[j].natural_key()) == 0
                ==> #[trigger] perm[i] < #[trigger] perm[j];
    if a.len() > 0 {
        lemma_renumberings_agree(before, before2, a, pa, b, pb, a.len() - 1);
    }
    assert forall|i: int| 0 <= i < a.len() implies 0 <= #[trigger] pa[i] < before.len() && a[i] == before[pa[i]]
        && b[i] == before2[pa[i]] by {
        assert(pa[i] == pb[i]);
    }
}

/// A stable sort in natural order has one outcome: two stable natural
/// sorts of the same list are the same list.
pub proof fn lemma_stable_sort_unique<T: NaturalKey>(before: Seq<T>, a: Seq<T>, b: Seq<T>)
    requires
        is_stable_natural_sort(before, a),
        is_stable_natural_sort(before, b),
    ensures
        a == b,
{
    lemma_stable_sorts_agree(before, before, a, b);
    let perm = choose|perm: Seq<int>|
        perm.len() == a.len() && forall|i: int|
            0 <= i < a.len() ==> 0 <= #[trigger] perm[i] < before.len() && a[i] == before[perm[i]] && b[i]
                == before[perm[i]];
    assert forall|k: int| 0 <= k < a.len() implies a[k] == b[k] by {
        assert(0 <= perm[k] < before.len());
    }
    assert(a =~= b);
}
} // verus!
