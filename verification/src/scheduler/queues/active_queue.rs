use vstd::prelude::*;
use crate::objects::pod::{Pod, PodView};
use crate::scheduler::active_queue::{rank_less, rank_lt, TraitActiveQCmp};

verus! {

/// The ranks of the pods strictly increase along the sequence.
pub open spec fn strictly_sorted<W: TraitActiveQCmp>(s: Seq<PodView>) -> bool {
    forall|i: int, j: int|
        0 <= i < j < s.len() ==> rank_lt(#[trigger] W::rank_of(s[i]), #[trigger] W::rank_of(s[j]))
}

/// Some pod of the sequence has the given rank.
pub open spec fn has_rank<W: TraitActiveQCmp>(s: Seq<PodView>, r: (int, int)) -> bool {
    exists|i: int| 0 <= i < s.len() && #[trigger] W::rank_of(s[i]) == r
}

/// `t` is `s` with `p` inserted where its rank puts it.
pub open spec fn inserted_in_order<W: TraitActiveQCmp>(s: Seq<PodView>, p: PodView, t: Seq<PodView>) -> bool {
    exists|i: int|
        0 <= i <= s.len() && t == s.insert(i, p) && (forall|j: int|
            0 <= j < i ==> rank_lt(#[trigger] W::rank_of(s[j]), W::rank_of(p))) && (forall|j: int|
            i <= j < s.len() ==> rank_lt(W::rank_of(p), #[trigger] W::rank_of(s[j])))
}

/// Finds where a pod of rank `r` goes: the first index whose rank is not
/// below `r`, and whether that entry has rank `r`.
fn locate<W: TraitActiveQCmp>(items: &Vec<W>, r: (i128, i128)) -> (res: (usize, bool))
    requires
        strictly_sorted::<W>(items@.map_values(|w: W| w.pod_view())),
    ensures
        ({
            let s = items@.map_values(|w: W| w.pod_view());
            let rr = (r.0 as int, r.1 as int);
            &&& res.0 <= s.len()
            &&& forall|j: int| 0 <= j < res.0 ==> rank_lt(#[trigger] W::rank_of(s[j]), rr)
            &&& res.1 ==> res.0 < s.len() && W::rank_of(s[res.0 as int]) == rr
            &&& !res.1 ==> forall|j: int| res.0 <= j < s.len() ==> rank_lt(rr, #[trigger] W::rank_of(s[j]))
        }),
{
    let ghost s = items@.map_values(|w: W| w.pod_view());
    let ghost rr = (r.0 as int, r.1 as int);
    let mut i: usize = 0;
    while i < items.len()
        invariant
            i <= items.len(),
            s == items@.map_values(|w: W| w.pod_view()),
            rr == (r.0 as int, r.1 as int),
            strictly_sorted::<W>(s),
            forall|j: int| 0 <= j < i ==> rank_lt(#[trigger] W::rank_of(s[j]), rr),
        decreases items.len() - i,
    {
        let ri = items[i].rank();
        assert(s[i as int] == items@[i as int].pod_view());
        if !rank_less(ri, r) {
            if ri.0 == r.0 && ri.1 == r.1 {
                return (i, true);
            }
            assert forall|j: int| i <= j < s.len() implies rank_lt(rr, #[trigger] W::rank_of(s[j])) by {
                if j > i {
                    assert(rank_lt(W::rank_of(s[i as int]), W::rank_of(s[j])));
                }
            }
            return (i, false);
        }
        i = i + 1;
    }
    (i, false)
}

/// `s` with `p` put where its rank places it.
pub open spec fn rank_inserted<W: TraitActiveQCmp>(s: Seq<PodView>, p: PodView) -> Seq<PodView>
    decreases s.len(),
{
    if s.len() == 0 {
        seq![p]
    } else if rank_lt(W::rank_of(p), W::rank_of(s[0])) {
        seq![p] + s
    } else {
        seq![s[0]] + rank_inserted::<W>(s.drop_first(), p)
    }
}

/// `s` without its first pod of rank `r`; `s` itself if there is none.
pub open spec fn rank_removed<W: TraitActiveQCmp>(s: Seq<PodView>, r: (int, int)) -> Seq<PodView>
    decreases s.len(),
{
    if s.len() == 0 {
        s
    } else if W::rank_of(s[0]) == r {
        s.drop_first()
    } else {
        seq![s[0]] + rank_removed::<W>(s.drop_first(), r)
    }
}

proof fn lemma_rank_inserted_at<W: TraitActiveQCmp>(s: Seq<PodView>, p: PodView, i: int)
    requires
        0 <= i <= s.len(),
        forall|j: int| 0 <= j < i ==> rank_lt(#[trigger] W::rank_of(s[j]), W::rank_of(p)),
        forall|j: int| i <= j < s.len() ==> rank_lt(W::rank_of(p), #[trigger] W::rank_of(s[j])),
    ensures
        rank_inserted::<W>(s, p) == s.insert(i, p),
    decreases s.len(),
{
    if s.len() == 0 {
        assert(s.insert(i, p) =~= seq![p]);
    } else if i == 0 {
        assert(s.insert(0, p) =~= seq![p] + s);
    } else {
        assert(rank_lt(W::rank_of(s[0]), W::rank_of(p)));
        let t = s.drop_first();
        assert forall|j: int| 0 <= j < i - 1 implies rank_lt(#[trigger] W::rank_of(t[j]), W::rank_of(p)) by {
            assert(t[j] == s[j + 1]);
        }
        assert forall|j: int| i - 1 <= j < t.len() implies rank_lt(W::rank_of(p), #[trigger] W::rank_of(t[j])) by {
            assert(t[j] == s[j + 1]);
        }
        lemma_rank_inserted_at::<W>(t, p, i - 1);
        assert(s.insert(i, p) =~= seq![s[0]] + t.insert(i - 1, p));
    }
}

proof fn lemma_rank_removed_at<W: TraitActiveQCmp>(s: Seq<PodView>, i: int)
    requires
        strictly_sorted::<W>(s),
        0 <= i < s.len(),
    ensures
        rank_removed::<W>(s, W::rank_of(s[i])) == s.remove(i),
    decreases s.len(),
{
    if i == 0 {
        assert(s.remove(0) =~= s.drop_first());
    } else {
        assert(rank_lt(W::rank_of(s[0]), W::rank_of(s[i])));
        let t = s.drop_first();
        assert(strictly_sorted::<W>(t)) by {
            assert forall|a: int, b: int| 0 <= a < b < t.len() implies rank_lt(
                #[trigger] W::rank_of(t[a]),
                #[trigger] W::rank_of(t[b]),
            ) by {
                assert(t[a] == s[a + 1] && t[b] == s[b + 1]);
            }
        }
        assert(t[i - 1] == s[i]);
        lemma_rank_removed_at::<W>(t, i - 1);
        assert(s.remove(i) =~= seq![s[0]] + t.remove(i - 1));
    }
}

proof fn lemma_rank_removed_absent<W: TraitActiveQCmp>(s: Seq<PodView>, r: (int, int))
    requires
        !has_rank::<W>(s, r),
    ensures
        rank_removed::<W>(s, r) == s,
    decreases s.len(),
{
    if s.len() > 0 {
        assert(W::rank_of(s[0]) != r);
        let t = s.drop_first();
        assert(!has_rank::<W>(t, r)) by {
            if has_rank::<W>(t, r) {
                let j = choose|j: int| 0 <= j < t.len() && #[trigger] W::rank_of(t[j]) == r;
                assert(t[j] == s[j + 1]);
            }
        }
        lemma_rank_removed_absent::<W>(t, r);
        assert(seq![s[0]] + t =~= s);
    }
}

/// Pushing a pod whose rank is not queued and removing that rank again
/// gives back the queue as it was.
pub proof fn lemma_push_then_remove<W: TraitActiveQCmp>(s: Seq<PodView>, p: PodView)
    requires
        strictly_sorted::<W>(s),
        !has_rank::<W>(s, W::rank_of(p)),
    ensures
        rank_removed::<W>(rank_inserted::<W>(s, p), W::rank_of(p)) == s,
    decreases s.len(),
{
    if s.len() == 0 {
        assert(seq![p].drop_first() =~= s);
    } else if rank_lt(W::rank_of(p), W::rank_of(s[0])) {
        assert((seq![p] + s)[0] == p);
        assert((seq![p] + s).drop_first() =~= s);
    } else {
        assert(W::rank_of(s[0]) != W::rank_of(p));
        let t = s.drop_first();
        assert(strictly_sorted::<W>(t)) by {
            assert forall|a: int, b: int| 0 <= a < b < t.len() implies rank_lt(
                #[trigger] W::rank_of(t[a]),
                #[trigger] W::rank_of(t[b]),
            ) by {
                assert(t[a] == s[a + 1] && t[b] == s[b + 1]);
            }
        }
        assert(!has_rank::<W>(t, W::rank_of(p))) by {
            if has_rank::<W>(t, W::rank_of(p)) {
                let j = choose|j: int| 0 <= j < t.len() && #[trigger] W::rank_of(t[j]) == W::rank_of(p);
                assert(t[j] == s[j + 1]);
            }
        }
        lemma_push_then_remove::<W>(t, p);
        let a = seq![s[0]] + rank_inserted::<W>(t, p);
        assert(a[0] == s[0]);
        assert(a.drop_first() =~= rank_inserted::<W>(t, p));
        assert(seq![s[0]] + t =~= s);
    }
}

proof fn lemma_sorted_insert<W: TraitActiveQCmp>(s: Seq<PodView>, p: PodView, i: int)
    requires
        strictly_sorted::<W>(s),
        0 <= i <= s.len(),
        forall|j: int| 0 <= j < i ==> rank_lt(#[trigger] W::rank_of(s[j]), W::rank_of(p)),
        forall|j: int| i <= j < s.len() ==> rank_lt(W::rank_of(p), #[trigger] W::rank_of(s[j])),
    ensures
        strictly_sorted::<W>(s.insert(i, p)),
{
    let t = s.insert(i, p);
    assert forall|a: int, b: int| 0 <= a < b < t.len() implies rank_lt(
        #[trigger] W::rank_of(t[a]),
        #[trigger] W::rank_of(t[b]),
    ) by {
        if a < i && b < i {
        } else if a < i && b == i {
        } else if a < i {
            assert(rank_lt(W::rank_of(s[a]), W::rank_of(p)));
            assert(rank_lt(W::rank_of(p), W::rank_of(s[b - 1])));
        } else if a == i {
        } else {
            assert(t[a] == s[a - 1] && t[b] == s[b - 1]);
        }
    }
}

proof fn lemma_sorted_remove<W: TraitActiveQCmp>(s: Seq<PodView>, i: int)
    requires
        strictly_sorted::<W>(s),
        0 <= i < s.len(),
    ensures
        strictly_sorted::<W>(s.remove(i)),
{
    let t = s.remove(i);
    assert forall|a: int, b: int| 0 <= a < b < t.len() implies rank_lt(
        #[trigger] W::rank_of(t[a]),
        #[trigger] W::rank_of(t[b]),
    ) by {
        let aa = if a < i { a } else { a + 1 };
        let bb = if b < i { b } else { b + 1 };
        assert(t[a] == s[aa] && t[b] == s[bb]);
    }
}

/// A queue of pods from which the pod of least rank (in the order `W`) is
/// taken first. A pod whose rank is already queued is not added again.
pub struct ActiveMinQ<W: TraitActiveQCmp>(pub Vec<W>);

/// A queue of pods from which the pod of greatest rank (in the order `W`)
/// is taken first. A pod whose rank is already queued is not added again.
pub struct ActiveMaxQ<W: TraitActiveQCmp>(pub Vec<W>);

impl<W: TraitActiveQCmp> ActiveMinQ<W> {
    /// The queued pods, by increasing rank.
    pub open spec fn view(&self) -> Seq<PodView> {
        self.0@.map_values(|w: W| w.pod_view())
    }

    pub open spec fn wf(&self) -> bool {
        strictly_sorted::<W>(self.view())
    }

    pub fn new() -> (r: Self)
        ensures
            r.view() == Seq::<PodView>::empty(),
            r.wf(),
    {
        let r = ActiveMinQ(Vec::new());
        assert(r.view() =~= Seq::<PodView>::empty());
        r
    }

    pub fn default() -> (r: Self)
        ensures
            r.view() == Seq::<PodView>::empty(),
            r.wf(),
    {
        Self::new()
    }

    /// Adds a pod unless a pod of the same rank is queued.
    pub fn push(&mut self, pod: Pod)
        requires
            old(self).wf(),
        ensures
            final(self).wf(),
            has_rank::<W>(old(self).view(), W::rank_of(pod@)) ==> final(self).view() == old(self).view(),
            !has_rank::<W>(old(self).view(), W::rank_of(pod@)) ==> inserted_in_order::<W>(
                old(self).view(),
                pod@,
                final(self).view(),
            ),
            !has_rank::<W>(old(self).view(), W::rank_of(pod@)) ==> final(self).view() == rank_inserted::<W>(
                old(self).view(),
                pod@,
            ),
    {
        let w = W::wrap(pod);
        let r = w.rank();
        let (i, found) = locate(&self.0, r);
        if found {
            return;
        }
        proof {
            let s = self.view();
            assert forall|j: int| 0 <= j < s.len() implies W::rank_of(#[trigger] s[j]) != W::rank_of(pod@) by {
                if j >= i {
                    assert(rank_lt(W::rank_of(pod@), W::rank_of(s[j])));
                }
            }
            lemma_sorted_insert::<W>(s, pod@, i as int);
            lemma_rank_inserted_at::<W>(s, pod@, i as int);
        }
        self.0.insert(i, w);
        assert(self.view() =~= old(self).view().insert(i as int, pod@));
    }

    /// Takes the pod of least rank.
    pub fn try_pop(&mut self) -> (r: Option<Pod>)
        requires
            old(self).wf(),
        ensures
            final(self).wf(),
            old(self).view().len() == 0 ==> r is None && final(self).view() == old(self).view(),
            old(self).view().len() > 0 ==> r is Some && r->0@ == old(self).view()[0] && final(self).view()
                == old(self).view().drop_first(),
    {
        if self.0.len() == 0 {
            return None;
        }
        let w = self.0.remove(0);
        proof {
            lemma_sorted_remove::<W>(old(self).view(), 0);
            assert(self.view() =~= old(self).view().remove(0));
            assert(old(self).view().remove(0) =~= old(self).view().drop_first());
        }
        Some(w.inner())
    }

    /// Removes the queued pod of the same rank as `pod`, if any.
    pub fn try_remove(&mut self, pod: Pod) -> (r: bool)
        requires
            old(self).wf(),
        ensures
            final(self).wf(),
            r == has_rank::<W>(old(self).view(), W::rank_of(pod@)),
            !r ==> final(self).view() == old(self).view(),
            r ==> exists|i: int|
                0 <= i < old(self).view().len() && W::rank_of(#[trigger] old(self).view()[i]) == W::rank_of(pod@)
                    && final(self).view() == old(self).view().remove(i),
            final(self).view() == rank_removed::<W>(old(self).view(), W::rank_of(pod@)),
    {
        let w = W::wrap(pod);
        let r = w.rank();
        let (i, found) = locate(&self.0, r);
        if !found {
            proof {
                let s = self.view();
                assert forall|j: int| 0 <= j < s.len() implies W::rank_of(#[trigger] s[j]) != W::rank_of(pod@) by {
                    if j >= i {
                        assert(rank_lt(W::rank_of(pod@), W::rank_of(s[j])));
                    }
                }
                lemma_rank_removed_absent::<W>(s, W::rank_of(pod@));
            }
            return false;
        }
        proof {
            lemma_sorted_remove::<W>(self.view(), i as int);
            lemma_rank_removed_at::<W>(self.view(), i as int);
        }
        self.0.remove(i);
        assert(self.view() =~= old(self).view().remove(i as int));
        true
    }

    pub fn len(&self) -> (r: usize)
        ensures
            r == self.view().len(),
    {
        self.0.len()
    }
}

impl<W: TraitActiveQCmp> ActiveMaxQ<W> {
    /// The queued pods, by increasing rank.
    pub open spec fn view(&self) -> Seq<PodView> {
        self.0@.map_values(|w: W| w.pod_view())
    }

    pub open spec fn wf(&self) -> bool {
        strictly_sorted::<W>(self.view())
    }

    pub fn new() -> (r: Self)
        ensures
            r.view() == Seq::<PodView>::empty(),
            r.wf(),
    {
        let r = ActiveMaxQ(Vec::new());
        assert(r.view() =~= Seq::<PodView>::empty());
        r
    }

    pub fn default() -> (r: Self)
        ensures
            r.view() == Seq::<PodView>::empty(),
            r.wf(),
    {
        Self::new()
    }

    /// Adds a pod unless a pod of the same rank is queued.
    pub fn push(&mut self, pod: Pod)
        requires
            old(self).wf(),
        ensures
            final(self).wf(),
            has_rank::<W>(old(self).view(), W::rank_of(pod@)) ==> final(self).view() == old(self).view(),
            !has_rank::<W>(old(self).view(), W::rank_of(pod@)) ==> inserted_in_order::<W>(
                old(self).view(),
                pod@,
                final(self).view(),
            ),
            !has_rank::<W>(old(self).view(), W::rank_of(pod@)) ==> final(self).view() == rank_inserted::<W>(
                old(self).view(),
                pod@,
            ),
    {
        let w = W::wrap(pod);
        let r = w.rank();
        let (i, found) = locate(&self.0, r);
        if found {
            return;
        }
        proof {
            let s = self.view();
            assert forall|j: int| 0 <= j < s.len() implies W::rank_of(#[trigger] s[j]) != W::rank_of(pod@) by {
                if j >= i {
                    assert(rank_lt(W::rank_of(pod@), W::rank_of(s[j])));
                }
            }
            lemma_sorted_insert::<W>(s, pod@, i as int);
            lemma_rank_inserted_at::<W>(s, pod@, i as int);
        }
        self.0.insert(i, w);
        assert(self.view() =~= old(self).view().insert(i as int, pod@));
    }

    /// Takes the pod of greatest rank.
    pub fn try_pop(&mut self) -> (r: Option<Pod>)
        requires
            old(self).wf(),
        ensures
            final(self).wf(),
            old(self).view().len() == 0 ==> r is None && final(self).view() == old(self).view(),
            old(self).view().len() > 0 ==> r is Some && r->0@ == old(self).view().last() && final(self).view()
                == old(self).view().drop_last(),
    {
        match self.0.pop() {
            None => None,
            Some(w) => {
                proof {
                    lemma_sorted_remove::<W>(old(self).view(), old(self).view().len() - 1);
                    assert(self.view() =~= old(self).view().drop_last());
                }
                Some(w.inner())
            },
        }
    }

    /// Removes the queued pod of the same rank as `pod`, if any.
    pub fn try_remove(&mut self, pod: Pod) -> (r: bool)
        requires
            old(self).wf(),
        ensures
            final(self).wf(),
            r == has_rank::<W>(old(self).view(), W::rank_of(pod@)),
            !r ==> final(self).view() == old(self).view(),
            r ==> exists|i: int|
                0 <= i < old(self).view().len() && W::rank_of(#[trigger] old(self).view()[i]) == W::rank_of(pod@)
                    && final(self).view() == old(self).view().remove(i),
            final(self).view() == rank_removed::<W>(old(self).view(), W::rank_of(pod@)),
    {
        let w = W::wrap(pod);
        let r = w.rank();
        let (i, found) = locate(&self.0, r);
        if !found {
            proof {
                let s = self.view();
                assert forall|j: int| 0 <= j < s.len() implies W::rank_of(#[trigger] s[j]) != W::rank_of(pod@) by {
                    if j >= i {
                        assert(rank_lt(W::rank_of(pod@), W::rank_of(s[j])));
                    }
                }
                lemma_rank_removed_absent::<W>(s, W::rank_of(pod@));
            }
            return false;
        }
        proof {
            lemma_sorted_remove::<W>(self.view(), i as int);
            lemma_rank_removed_at::<W>(self.view(), i as int);
        }
        self.0.remove(i);
        assert(self.view() =~= old(self).view().remove(i as int));
        true
    }

    pub fn len(&self) -> (r: usize)
        ensures
            r == self.view().len(),
    {
        self.0.len()
    }
}

} // verus!
