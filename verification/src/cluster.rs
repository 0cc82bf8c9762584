//! Bookkeeping of agglomerative speaker clustering: which cluster each embedding is in, the
//! members of each cluster in merge order, and the speaker labels at the end. The caller picks
//! the closest pair of clusters (a computation on the embeddings) and merges it.
use vstd::prelude::*;

verus! {

/// Number of active slots before `r`.
pub open spec fn count_active(active: Seq<bool>, r: int) -> nat
    decreases r,
{
    if r <= 0 || r > active.len() {
        0
    } else {
        count_active(active, r - 1) + if active[r - 1] { 1nat } else { 0nat }
    }
}

/// Clusters of `n` items, merged pairwise. Each cluster lives in the slot of its smallest
/// item; a slot is active while it holds a cluster.
pub struct ClusterMerger {
    clusters: Vec<Vec<usize>>,
    active: Vec<bool>,
    rep: Vec<usize>,
}

impl ClusterMerger {
    /// Number of items.
    pub closed spec fn len(self) -> nat {
        self.rep@.len()
    }

    /// The slot of the cluster that item `x` is in.
    pub closed spec fn slot_of(self, x: int) -> int {
        self.rep@[x] as int
    }

    /// Slot `s` holds a cluster.
    pub closed spec fn is_active(self, s: int) -> bool {
        self.active@[s]
    }

    /// The members of the cluster in slot `s`, in the order they joined it.
    pub closed spec fn members(self, s: int) -> Seq<usize> {
        self.clusters@[s]@
    }

    /// The activity of every slot.
    pub closed spec fn activity(self) -> Seq<bool> {
        self.active@
    }

    /// The bookkeeping is consistent: every item is in an active slot no later than itself,
    /// an active slot is its own slot, and the members of an active slot are exactly the items
    /// in it, each once; an inactive slot holds no members.
    pub closed spec fn wf(self) -> bool {
        let n = self.rep@.len();
        &&& self.clusters@.len() == n
        &&& self.active@.len() == n
        &&& forall|s: int| 0 <= s < n ==> (#[trigger] self.active@[s] <==> self.rep@[s] == s)
        &&& forall|x: int| 0 <= x < n ==> #[trigger] self.rep@[x] <= x && self.active@[self.rep@[x] as int]
        &&& forall|s: int| 0 <= s < n && !self.active@[s] ==> (#[trigger] self.clusters@[s])@.len() == 0
        &&& forall|s: int, k: int| 0 <= s < n && 0 <= k < self.clusters@[s]@.len() ==>
            (#[trigger] self.clusters@[s]@[k]) < n && self.rep@[self.clusters@[s]@[k] as int] == s
        &&& forall|x: int| 0 <= x < n ==> (#[trigger] self.clusters@[self.rep@[x] as int])@.contains(x as usize)
        &&& forall|s: int| 0 <= s < n ==> (#[trigger] self.clusters@[s])@.no_duplicates()
    }

    /// Every item in a cluster of its own.
    pub fn new(n: usize) -> (c: Self)
        ensures
            c.wf(),
            c.len() == n,
            forall|x: int| 0 <= x < n ==> c.slot_of(x) == x && c.is_active(x) && c.members(x) == seq![x as usize],
    {
        let mut clusters: Vec<Vec<usize>> = Vec::new();
        let mut active: Vec<bool> = Vec::new();
        let mut rep: Vec<usize> = Vec::new();
        let mut i: usize = 0;
        while i < n
            invariant
                i <= n,
                clusters@.len() == i && active@.len() == i && rep@.len() == i,
                forall|x: int| 0 <= x < i ==> #[trigger] rep@[x] == x && active@[x] && clusters@[x]@ == seq![x as usize],
            decreases n - i,
        {
            let mut one: Vec<usize> = Vec::new();
            one.push(i);
            clusters.push(one);
            active.push(true);
            rep.push(i);
            i += 1;
        }
        let c = ClusterMerger { clusters, active, rep };
        assert forall|s: int| 0 <= s < n implies (#[trigger] c.active@[s] <==> c.rep@[s] == s) by {
            assert(c.rep@[s] == s);
        }
        assert forall|x: int| 0 <= x < n implies #[trigger] c.rep@[x] <= x && c.active@[c.rep@[x] as int] by {
            assert(c.rep@[x] == x);
        }
        assert forall|s: int| 0 <= s < n && !c.active@[s] implies (#[trigger] c.clusters@[s])@.len() == 0 by {
            assert(c.rep@[s] == s);
        }
        assert forall|s: int, k: int| 0 <= s < n && 0 <= k < c.clusters@[s]@.len() implies
            (#[trigger] c.clusters@[s]@[k]) < n && c.rep@[c.clusters@[s]@[k] as int] == s by {
            assert(c.rep@[s] == s);
            assert(c.clusters@[s]@[k] == s as usize);
        }
        assert forall|x: int| 0 <= x < n implies (#[trigger] c.clusters@[c.rep@[x] as int])@.contains(x as usize) by {
            assert(c.rep@[x] == x);
            assert(c.clusters@[x]@[0] == x as usize);
        }
        assert forall|s: int| 0 <= s < n implies (#[trigger] c.clusters@[s])@.no_duplicates() by {
            assert(c.rep@[s] == s);
            assert(c.clusters@[s]@ == seq![s as usize]);
        }
        c
    }

    /// Whether slot `s` holds a cluster.
    pub fn active(&self, s: usize) -> (r: bool)
        requires
            self.wf(),
            s < self.len(),
        ensures
            r == self.is_active(s as int),
    {
        self.active[s]
    }

    /// The members of the cluster in slot `s`, in the order they joined it.
    pub fn members_of(&self, s: usize) -> (r: &Vec<usize>)
        requires
            self.wf(),
            s < self.len(),
        ensures
            r@ == self.members(s as int),
    {
        &self.clusters[s]
    }

    /// Number of items.
    pub fn size(&self) -> (r: usize)
        ensures
            r == self.len(),
    {
        self.rep.len()
    }

    /// Merges the cluster in slot `j` into that in slot `i` (`i < j`): its members follow
    /// those of `i`, its items move to slot `i`, and slot `j` is emptied.
    pub fn merge(&mut self, i: usize, j: usize)
        requires
            old(self).wf(),
            i < j < old(self).len(),
            old(self).is_active(i as int),
            old(self).is_active(j as int),
        ensures
            final(self).wf(),
            final(self).len() == old(self).len(),
            final(self).members(i as int) == old(self).members(i as int) + old(self).members(j as int),
            !final(self).is_active(j as int),
            forall|s: int| 0 <= s < old(self).len() && s != j ==>
                final(self).is_active(s) == old(self).is_active(s),
            forall|s: int| 0 <= s < old(self).len() && s != i && s != j ==>
                final(self).members(s) == old(self).members(s),
            forall|x: int| 0 <= x < old(self).len() ==> final(self).slot_of(x) == (if old(self).slot_of(x) == j {
                i as int
            } else {
                old(self).slot_of(x)
            }),
    {
        let n = self.rep.len();
        let ghost old_rep = self.rep@;
        let ghost old_cl = self.clusters@;
        let ghost old_act = self.active@;
        let moved = self.clusters[j].clone();
        assert(moved@ == old_cl[j as int]@) by {
            assert(forall|k: int| 0 <= k < moved@.len() ==> moved@[k] == old_cl[j as int]@[k]);
            assert(moved@ =~= old_cl[j as int]@);
        }
        let mut target = self.clusters[i].clone();
        assert(target@ =~= old_cl[i as int]@);
        let mut k: usize = 0;
        while k < moved.len()
            invariant
                k <= moved@.len(),
                target@ == old_cl[i as int]@ + moved@.subrange(0, k as int),
            decreases moved@.len() - k,
        {
            target.push(moved[k]);
            assert(moved@.subrange(0, k + 1) == moved@.subrange(0, k as int).push(moved@[k as int]));
            k += 1;
        }
        assert(moved@.subrange(0, moved@.len() as int) == moved@);
        let ghost target_v = target@;
        self.clusters.set(i, target);
        self.clusters.set(j, Vec::new());
        self.active.set(j, false);
        let ghost cl_after = self.clusters@;
        let ghost act_after = self.active@;
        assert(cl_after[i as int]@ == target_v);
        assert(cl_after[j as int]@.len() == 0);
        assert(forall|s: int| 0 <= s < n && s != i && s != j ==> cl_after[s] == old_cl[s]);
        assert(forall|s: int| 0 <= s < n && s != j ==> act_after[s] == old_act[s]);
        assert(!act_after[j as int]);
        let mut x: usize = 0;
        while x < n
            invariant
                self.clusters@ == cl_after,
                self.active@ == act_after,
                n == self.rep@.len(),
                n == old_rep.len(),
                x <= n,
                i < j < n,
                forall|y: int| 0 <= y < x ==> #[trigger] self.rep@[y] == (if old_rep[y] == j { i } else { old_rep[y] }),
                forall|y: int| x <= y < n ==> #[trigger] self.rep@[y] == old_rep[y],
            decreases n - x,
        {
            if self.rep[x] == j {
                self.rep.set(x, i);
            }
            x += 1;
        }
        proof {
            let new_cl = self.clusters@;
            let new_rep = self.rep@;
            let new_act = self.active@;
            assert forall|s: int| 0 <= s < n implies (#[trigger] new_act[s] <==> new_rep[s] == s) by {
                if s == j {
                    assert(old_rep[s] == j);
                }
            }
            assert forall|y: int| 0 <= y < n implies #[trigger] new_rep[y] <= y && new_act[new_rep[y] as int] by {
                assert(old_rep[y] <= y && old_act[old_rep[y] as int]);
            }
            assert forall|s: int| 0 <= s < n && !new_act[s] implies (#[trigger] new_cl[s])@.len() == 0 by {}
            assert forall|s: int, q: int| 0 <= s < n && 0 <= q < new_cl[s]@.len() implies
                (#[trigger] new_cl[s]@[q]) < n && new_rep[new_cl[s]@[q] as int] == s by {
                if s == i {
                    if q < old_cl[i as int]@.len() {
                        assert(new_cl[s]@[q] == old_cl[i as int]@[q]);
                        assert(old_rep[old_cl[i as int]@[q] as int] == i);
                    } else {
                        let q2 = q - old_cl[i as int]@.len();
                        assert(new_cl[s]@[q] == old_cl[j as int]@[q2]);
                        assert(old_rep[old_cl[j as int]@[q2] as int] == j);
                    }
                } else {
                    assert(new_cl[s] == old_cl[s]);
                    assert(old_rep[old_cl[s]@[q] as int] == s);
                }
            }
            assert forall|y: int| 0 <= y < n implies (#[trigger] new_cl[new_rep[y] as int])@.contains(y as usize) by {
                assert(old_cl[old_rep[y] as int]@.contains(y as usize));
                let q = choose|q: int| 0 <= q < old_cl[old_rep[y] as int]@.len() && old_cl[old_rep[y] as int]@[q] == y as usize;
                if old_rep[y] == j {
                    assert(new_cl[i as int]@[old_cl[i as int]@.len() + q] == y as usize);
                } else if old_rep[y] == i {
                    assert(new_cl[i as int]@[q] == y as usize);
                } else {
                    assert(new_cl[old_rep[y] as int] == old_cl[old_rep[y] as int]);
                }
            }
            assert forall|s: int| 0 <= s < n implies (#[trigger] new_cl[s])@.no_duplicates() by {
                if s == i {
                    let a = old_cl[i as int]@;
                    let b = old_cl[j as int]@;
                    assert(a.no_duplicates());
                    assert(b.no_duplicates());
                    assert forall|p: int, q: int| 0 <= p < q < (a + b).len() implies (a + b)[p] != (a + b)[q] by {
                        if q < a.len() {
                        } else if p >= a.len() {
                            assert((a + b)[p] == b[p - a.len()]);
                            assert((a + b)[q] == b[q - a.len()]);
                        } else {
                            assert((a + b)[p] == a[p]);
                            assert((a + b)[q] == b[q - a.len()]);
                            assert(old_rep[a[p] as int] == i);
                            assert(old_rep[b[q - a.len()] as int] == j);
                        }
                    }
                } else if s == j {
                    assert(new_cl[s]@.len() == 0);
                } else {
                    assert(new_cl[s] == old_cl[s]);
                }
            }
        }
    }

    /// The speaker label of each item: clusters are numbered from 0 in the order of their
    /// first items.
    pub fn labels(&self) -> (l: Vec<usize>)
        requires
            self.wf(),
        ensures
            l@.len() == self.len(),
            forall|x: int| 0 <= x < self.len() ==> #[trigger] l@[x] == count_active(self.activity(), self.slot_of(x)),
    {
        let n = self.rep.len();
        let mut labels: Vec<usize> = Vec::new();
        let mut next: usize = 0;
        let mut x: usize = 0;
        while x < n
            invariant
                self.wf(),
                n == self.rep@.len(),
                x <= n,
                labels@.len() == x,
                next == count_active(self.active@, x as int),
                next <= x,
                forall|y: int| 0 <= y < x ==> #[trigger] labels@[y] == count_active(self.active@, self.rep@[y] as int),
            decreases n - x,
        {
            let r = self.rep[x];
            if r == x {
                assert(self.active@[x as int]);
                labels.push(next);
                next += 1;
            } else {
                assert(r < x);
                assert(!self.active@[x as int]);
                let v = labels[r];
                assert(self.rep@[r as int] == r);
                labels.push(v);
            }
            x += 1;
        }
        labels
    }
}

proof fn lemma_count_active_monotone(active: Seq<bool>, a: int, b: int)
    requires
        0 <= a <= b <= active.len(),
    ensures
        count_active(active, a) <= count_active(active, b),
        a < b && active[a] ==> count_active(active, a) < count_active(active, b),
    decreases b - a,
{
    if a < b {
        lemma_count_active_monotone(active, a, b - 1);
        if active[a] && a == b - 1 {
        }
    }
}

/// Two items get the same label exactly when they are in the same cluster.
pub proof fn lemma_labels_tell_clusters_apart(c: ClusterMerger, x: int, y: int)
    requires
        c.wf(),
        0 <= x < c.len(),
        0 <= y < c.len(),
    ensures
        (count_active(c.activity(), c.slot_of(x)) == count_active(c.activity(), c.slot_of(y)))
            <==> c.slot_of(x) == c.slot_of(y),
{
    let a = c.slot_of(x);
    let b = c.slot_of(y);
    assert(c.rep@[x] <= x && c.active@[c.rep@[x] as int]);
    assert(c.rep@[y] <= y && c.active@[c.rep@[y] as int]);
    if a < b {
        lemma_count_active_monotone(c.activity(), a, b);
    } else if b < a {
        lemma_count_active_monotone(c.activity(), b, a);
    }
}

} // verus!
