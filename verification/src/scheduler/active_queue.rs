use vstd::prelude::*;
use crate::objects::pod::{Pod, PodView};

verus! {

/// `a` comes strictly before `b` in the lexicographic order of ranks.
pub open spec fn rank_lt(a: (int, int), b: (int, int)) -> bool {
    a.0 < b.0 || (a.0 == b.0 && a.1 < b.1)
}

/// An order on pods, given by a rank, used by the active queues. Two pods
/// of equal rank count as the same entry of a queue.
pub trait TraitActiveQCmp: Sized {
    /// The rank of a pod in this order.
    spec fn rank_of(pod: PodView) -> (int, int);

    /// Pods of equal rank have the same uid.
    proof fn lemma_rank_uid(a: PodView, b: PodView)
        requires
            Self::rank_of(a) == Self::rank_of(b),
        ensures
            a.uid == b.uid,
    ;

    /// The pod this entry carries.
    spec fn pod_view(&self) -> PodView;

    fn wrap(pod: Pod) -> (r: Self)
        ensures
            r.pod_view() == pod@,
    ;

    fn inner(&self) -> (r: Pod)
        ensures
            r@ == self.pod_view(),
    ;

    fn rank(&self) -> (r: (i128, i128))
        ensures
            (r.0 as int, r.1 as int) == Self::rank_of(self.pod_view()),
    ;
}

/// Orders pods by decreasing uid, so that the greatest entry is the pod
/// with the smallest uid.
#[derive(Debug, Clone)]
pub struct ActiveQCmpMinUid(pub Pod);

/// Orders pods by priority, then by uid.
#[derive(Debug, Clone)]
pub struct ActiveQCmpPriority(pub Pod);

/// Orders pods by increasing uid.
#[derive(Debug, Clone)]
pub struct ActiveQCmpUid(pub Pod);

impl TraitActiveQCmp for ActiveQCmpMinUid {
    proof fn lemma_rank_uid(a: PodView, b: PodView) {
    }

    open spec fn rank_of(pod: PodView) -> (int, int) {
        (0, -(pod.uid as int))
    }

    open spec fn pod_view(&self) -> PodView {
        self.0@
    }

    fn wrap(pod: Pod) -> (r: Self) {
        ActiveQCmpMinUid(pod)
    }

    fn inner(&self) -> (r: Pod) {
        self.0.clone()
    }

    fn rank(&self) -> (r: (i128, i128)) {
        (0, -(self.0.metadata.uid as i128))
    }
}

impl TraitActiveQCmp for ActiveQCmpPriority {
    proof fn lemma_rank_uid(a: PodView, b: PodView) {
    }

    open spec fn rank_of(pod: PodView) -> (int, int) {
        (pod.priority as int, pod.uid as int)
    }

    open spec fn pod_view(&self) -> PodView {
        self.0@
    }

    fn wrap(pod: Pod) -> (r: Self) {
        ActiveQCmpPriority(pod)
    }

    fn inner(&self) -> (r: Pod) {
        self.0.clone()
    }

    fn rank(&self) -> (r: (i128, i128)) {
        (self.0.spec.priority as i128, self.0.metadata.uid as i128)
    }
}

impl TraitActiveQCmp for ActiveQCmpUid {
    proof fn lemma_rank_uid(a: PodView, b: PodView) {
    }

    open spec fn rank_of(pod: PodView) -> (int, int) {
        (0, pod.uid as int)
    }

    open spec fn pod_view(&self) -> PodView {
        self.0@
    }

    fn wrap(pod: Pod) -> (r: Self) {
        ActiveQCmpUid(pod)
    }

    fn inner(&self) -> (r: Pod) {
        self.0.clone()
    }

    fn rank(&self) -> (r: (i128, i128)) {
        (0, self.0.metadata.uid as i128)
    }
}

/// Whether rank `a` comes strictly before rank `b`.
pub fn rank_less(a: (i128, i128), b: (i128, i128)) -> (r: bool)
    ensures
        r == rank_lt((a.0 as int, a.1 as int), (b.0 as int, b.1 as int)),
{
    a.0 < b.0 || (a.0 == b.0 && a.1 < b.1)
}

} // verus!
