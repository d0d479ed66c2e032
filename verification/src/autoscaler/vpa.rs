use vstd::prelude::*;

verus! {

/// What the vertical autoscaler knows of a pod of a group when it decides:
/// whether the pod finished and whether it failed, whether it was already
/// rescheduled once, and whether its usage has drifted far enough from its
/// requests to reschedule it (measured on real numbers by the caller).
#[derive(Debug, Clone, Copy, PartialEq, Eq, Structural)]
pub struct VpaPod {
    pub pod_uid: u64,
    pub finished: bool,
    pub failed: bool,
    pub rescheduled: bool,
    pub need_reschedule: bool,
}

/// What the vertical autoscaler sends for a group.
#[derive(Debug, Clone, Copy, PartialEq, Eq, Structural)]
pub enum VpaAction {
    /// Submit a new pod of the group, with the resources suggested from
    /// what was seen of this pod.
    AddLike(u64),
    /// Remove this pod.
    Remove(u64),
}

/// The actions for a group, in order, and the pods it keeps following.
pub struct VpaDecision {
    pub actions: Vec<VpaAction>,
    pub kept: Vec<VpaPod>,
}

/// A new pod for each finished pod that failed, in order.
pub open spec fn failed_actions(pods: Seq<VpaPod>) -> Seq<VpaAction>
    decreases pods.len(),
{
    if pods.len() == 0 {
        Seq::empty()
    } else {
        let p = pods.last();
        failed_actions(pods.drop_last()) + if p.finished && p.failed {
            seq![VpaAction::AddLike(p.pod_uid)]
        } else {
            Seq::empty()
        }
    }
}

/// For each pod still running its course, not rescheduled yet, whose usage
/// drifted: its removal and a replacement, in order.
pub open spec fn reschedule_actions(pods: Seq<VpaPod>) -> Seq<VpaAction>
    decreases pods.len(),
{
    if pods.len() == 0 {
        Seq::empty()
    } else {
        let p = pods.last();
        reschedule_actions(pods.drop_last()) + if !p.finished && !p.rescheduled && p.need_reschedule {
            seq![VpaAction::Remove(p.pod_uid), VpaAction::AddLike(p.pod_uid)]
        } else {
            Seq::empty()
        }
    }
}

/// The pods not finished, each marked rescheduled once it has been.
pub open spec fn kept_pods(pods: Seq<VpaPod>) -> Seq<VpaPod>
    decreases pods.len(),
{
    if pods.len() == 0 {
        Seq::empty()
    } else {
        let p = pods.last();
        kept_pods(pods.drop_last()) + if !p.finished {
            seq![VpaPod { rescheduled: p.rescheduled || p.need_reschedule, ..p }]
        } else {
            Seq::empty()
        }
    }
}

/// The vertical autoscaler's decision for a group: first a new pod for each
/// finished pod that failed, then, for each pod not finished and not
/// rescheduled yet whose usage drifted, its removal and a replacement; the
/// finished pods are dropped and the rescheduled ones marked.
pub fn vpa_decide(pods: &Vec<VpaPod>) -> (r: VpaDecision)
    ensures
        r.actions@ == failed_actions(pods@) + reschedule_actions(pods@),
        r.kept@ == kept_pods(pods@),
{
    let mut actions: Vec<VpaAction> = Vec::new();
    let mut i: usize = 0;
    while i < pods.len()
        invariant
            i <= pods.len(),
            actions@ == failed_actions(pods@.take(i as int)),
        decreases pods.len() - i,
    {
        let p = pods[i];
        proof {
            assert(pods@.take(i + 1).drop_last() =~= pods@.take(i as int));
            assert(pods@.take(i + 1).last() == p);
        }
        if p.finished && p.failed {
            actions.push(VpaAction::AddLike(p.pod_uid));
        }
        proof {
            assert(actions@ =~= failed_actions(pods@.take(i + 1)));
        }
        i = i + 1;
    }
    assert(pods@.take(pods.len() as int) =~= pods@);
    let ghost failed = actions@;
    let mut kept: Vec<VpaPod> = Vec::new();
    let mut j: usize = 0;
    while j < pods.len()
        invariant
            j <= pods.len(),
            failed == failed_actions(pods@),
            actions@ == failed + reschedule_actions(pods@.take(j as int)),
            kept@ == kept_pods(pods@.take(j as int)),
        decreases pods.len() - j,
    {
        let p = pods[j];
        proof {
            assert(pods@.take(j + 1).drop_last() =~= pods@.take(j as int));
            assert(pods@.take(j + 1).last() == p);
        }
        if !p.finished {
            if !p.rescheduled && p.need_reschedule {
                actions.push(VpaAction::Remove(p.pod_uid));
                actions.push(VpaAction::AddLike(p.pod_uid));
            }
            kept.push(VpaPod { rescheduled: p.rescheduled || p.need_reschedule, ..p });
        }
        proof {
            assert(actions@ =~= failed + reschedule_actions(pods@.take(j + 1)));
            assert(kept@ =~= kept_pods(pods@.take(j + 1)));
        }
        j = j + 1;
    }
    VpaDecision { actions, kept }
}

/// A pod's removal is among the reschedule actions exactly when some pod of
/// that uid is not finished, not rescheduled yet, and drifted.
proof fn lemma_remove_iff(pods: Seq<VpaPod>, u: u64)
    ensures
        reschedule_actions(pods).contains(VpaAction::Remove(u)) <==> exists|i: int|
            0 <= i < pods.len() && (#[trigger] pods[i]).pod_uid == u && !pods[i].finished && !pods[i].rescheduled
                && pods[i].need_reschedule,
    decreases pods.len(),
{
    if pods.len() > 0 {
        let t = pods.drop_last();
        let p = pods.last();
        lemma_remove_iff(t, u);
        let tail: Seq<VpaAction> = if !p.finished && !p.rescheduled && p.need_reschedule {
            seq![VpaAction::Remove(p.pod_uid), VpaAction::AddLike(p.pod_uid)]
        } else {
            Seq::empty()
        };
        let all = reschedule_actions(pods);
        assert(all == reschedule_actions(t) + tail);
        if all.contains(VpaAction::Remove(u)) {
            let k = choose|k: int| 0 <= k < all.len() && all[k] == VpaAction::Remove(u);
            if k < reschedule_actions(t).len() {
                assert(reschedule_actions(t)[k] == VpaAction::Remove(u));
                let i = choose|i: int|
                    0 <= i < t.len() && (#[trigger] t[i]).pod_uid == u && !t[i].finished && !t[i].rescheduled
                        && t[i].need_reschedule;
                assert(pods[i] == t[i]);
            } else {
                assert(tail[k - reschedule_actions(t).len()] == VpaAction::Remove(u));
                assert(pods[pods.len() - 1] == p);
            }
        }
        if exists|i: int|
            0 <= i < pods.len() && (#[trigger] pods[i]).pod_uid == u && !pods[i].finished && !pods[i].rescheduled
                && pods[i].need_reschedule {
            let i = choose|i: int|
                0 <= i < pods.len() && (#[trigger] pods[i]).pod_uid == u && !pods[i].finished && !pods[i].rescheduled
                    && pods[i].need_reschedule;
            if i < t.len() {
                assert(t[i] == pods[i]);
                let k = choose|k: int| 0 <= k < reschedule_actions(t).len() && reschedule_actions(t)[k] == VpaAction::Remove(u);
                assert(all[k] == VpaAction::Remove(u));
            } else {
                assert(all[reschedule_actions(t).len() as int] == VpaAction::Remove(u));
            }
        }
    }
}

/// Each kept pod is a pod not finished, marked rescheduled once it has been.
proof fn lemma_kept_from(pods: Seq<VpaPod>)
    ensures
        forall|j: int|
            0 <= j < kept_pods(pods).len() ==> exists|i: int|
                0 <= i < pods.len() && !pods[i].finished && #[trigger] kept_pods(pods)[j] == (VpaPod {
                    rescheduled: pods[i].rescheduled || pods[i].need_reschedule,
                    ..pods[i]
                }),
    decreases pods.len(),
{
    if pods.len() > 0 {
        let t = pods.drop_last();
        lemma_kept_from(t);
        let k = kept_pods(pods);
        assert forall|j: int| 0 <= j < k.len() implies exists|i: int|
            0 <= i < pods.len() && !pods[i].finished && #[trigger] k[j] == (VpaPod {
                rescheduled: pods[i].rescheduled || pods[i].need_reschedule,
                ..pods[i]
            }) by {
            if j < kept_pods(t).len() {
                assert(k[j] == kept_pods(t)[j]);
                let i = choose|i: int|
                    0 <= i < t.len() && !t[i].finished && #[trigger] kept_pods(t)[j] == (VpaPod {
                        rescheduled: t[i].rescheduled || t[i].need_reschedule,
                        ..t[i]
                    });
                assert(pods[i] == t[i]);
            } else {
                assert(pods[pods.len() - 1] == pods.last());
            }
        }
    }
}

/// A pod is rescheduled at most once: where a decision removes a pod to
/// reschedule it, the next decision, over the kept pods with whatever new
/// measurements, does not remove it again. The uids of a group's pods are
/// distinct.
pub proof fn lemma_rescheduled_at_most_once(pods: Seq<VpaPod>, next: Seq<VpaPod>, u: u64)
    requires
        forall|i: int, j: int| 0 <= i < j < pods.len() ==> (#[trigger] pods[i]).pod_uid != (#[trigger] pods[j]).pod_uid,
        next.len() == kept_pods(pods).len(),
        forall|j: int|
            0 <= j < next.len() ==> #[trigger] next[j] == (VpaPod {
                finished: next[j].finished,
                failed: next[j].failed,
                need_reschedule: next[j].need_reschedule,
                ..kept_pods(pods)[j]
            }),
        reschedule_actions(pods).contains(VpaAction::Remove(u)),
    ensures
        !reschedule_actions(next).contains(VpaAction::Remove(u)),
{
    lemma_remove_iff(pods, u);
    lemma_remove_iff(next, u);
    lemma_kept_from(pods);
    let i0 = choose|i: int|
        0 <= i < pods.len() && (#[trigger] pods[i]).pod_uid == u && !pods[i].finished && !pods[i].rescheduled
            && pods[i].need_reschedule;
    if reschedule_actions(next).contains(VpaAction::Remove(u)) {
        let j = choose|j: int|
            0 <= j < next.len() && (#[trigger] next[j]).pod_uid == u && !next[j].finished && !next[j].rescheduled
                && next[j].need_reschedule;
        let k = kept_pods(pods);
        assert(next[j].pod_uid == k[j].pod_uid && next[j].rescheduled == k[j].rescheduled);
        let i = choose|i: int|
            0 <= i < pods.len() && !pods[i].finished && #[trigger] k[j] == (VpaPod {
                rescheduled: pods[i].rescheduled || pods[i].need_reschedule,
                ..pods[i]
            });
        if i != i0 {
            if i < i0 {
                assert(pods[i].pod_uid != pods[i0].pod_uid);
            } else {
                assert(pods[i0].pod_uid != pods[i].pod_uid);
            }
        }
    }
}

} // verus!
