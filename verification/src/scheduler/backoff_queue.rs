use vstd::prelude::*;

verus! {

/// `(exit time, pod uid)` pairs in lexicographic order.
pub open spec fn entry_lt(a: (u64, u64), b: (u64, u64)) -> bool {
    a.0 < b.0 || (a.0 == b.0 && a.1 < b.1)
}

/// Entries strictly increase by exit time, then by pod uid.
pub open spec fn entries_sorted(s: Seq<(u64, u64)>) -> bool {
    forall|i: int, j: int| 0 <= i < j < s.len() ==> entry_lt(#[trigger] s[i], #[trigger] s[j])
}

/// Some entry is for this pod.
pub open spec fn holds_pod(s: Seq<(u64, u64)>, pod_uid: u64) -> bool {
    exists|i: int| 0 <= i < s.len() && (#[trigger] s[i]).1 == pod_uid
}

/// No pod has two entries.
pub open spec fn pods_distinct(s: Seq<(u64, u64)>) -> bool {
    forall|i: int, j: int| 0 <= i < s.len() && 0 <= j < s.len() && i != j ==> (#[trigger] s[i]).1 != (#[trigger] s[j]).1
}

/// `t` is `s` with `e` inserted where its order puts it.
pub open spec fn entry_inserted(s: Seq<(u64, u64)>, e: (u64, u64), t: Seq<(u64, u64)>) -> bool {
    exists|i: int|
        0 <= i <= s.len() && t == s.insert(i, e) && (forall|j: int|
            0 <= j < i ==> entry_lt(#[trigger] s[j], e)) && (forall|j: int|
            i <= j < s.len() ==> entry_lt(e, #[trigger] s[j]))
}

/// `s` with `e` inserted before the first entry that comes after it.
pub open spec fn insert_sorted(s: Seq<(u64, u64)>, e: (u64, u64)) -> Seq<(u64, u64)>
    decreases s.len(),
{
    if s.len() == 0 {
        seq![e]
    } else if entry_lt(e, s[0]) {
        seq![e] + s
    } else {
        seq![s[0]] + insert_sorted(s.drop_first(), e)
    }
}

/// Inserting where the order puts an entry is what `insert_sorted` does.
pub proof fn lemma_insert_sorted(s: Seq<(u64, u64)>, e: (u64, u64), i: int)
    requires
        0 <= i <= s.len(),
        forall|j: int| 0 <= j < i ==> entry_lt(#[trigger] s[j], e),
        forall|j: int| i <= j < s.len() ==> entry_lt(e, #[trigger] s[j]),
    ensures
        s.insert(i, e) == insert_sorted(s, e),
    decreases s.len(),
{
    if s.len() == 0 {
        assert(s.insert(i, e) =~= seq![e]);
    } else if i == 0 {
        assert(entry_lt(e, s[0]));
        assert(s.insert(0, e) =~= seq![e] + s);
    } else {
        assert(entry_lt(s[0], e));
        assert(!entry_lt(e, s[0]));
        let t = s.drop_first();
        assert forall|j: int| 0 <= j < i - 1 implies entry_lt(#[trigger] t[j], e) by {
            assert(t[j] == s[j + 1]);
        }
        assert forall|j: int| i - 1 <= j < t.len() implies entry_lt(e, #[trigger] t[j]) by {
            assert(t[j] == s[j + 1]);
        }
        lemma_insert_sorted(t, e, i - 1);
        assert(s.insert(i, e) =~= seq![s[0]] + t.insert(i - 1, e));
    }
}

proof fn lemma_split_index(s: Seq<(u64, u64)>, e: (u64, u64)) -> (i: int)
    requires
        entries_sorted(s),
        !holds_pod(s, e.1),
    ensures
        0 <= i <= s.len(),
        forall|j: int| 0 <= j < i ==> entry_lt(#[trigger] s[j], e),
        forall|j: int| i <= j < s.len() ==> entry_lt(e, #[trigger] s[j]),
    decreases s.len(),
{
    if s.len() == 0 {
        0
    } else if entry_lt(e, s[0]) {
        assert forall|j: int| 0 <= j < s.len() implies entry_lt(e, #[trigger] s[j]) by {
            if j > 0 {
                assert(entry_lt(s[0], s[j]));
            }
        }
        0
    } else {
        assert(s[0].1 != e.1);
        assert(entry_lt(s[0], e));
        let t = s.drop_first();
        assert(entries_sorted(t)) by {
            assert forall|a: int, b: int| 0 <= a < b < t.len() implies entry_lt(#[trigger] t[a], #[trigger] t[b]) by {
                assert(t[a] == s[a + 1] && t[b] == s[b + 1]);
            }
        }
        assert(!holds_pod(t, e.1)) by {
            if holds_pod(t, e.1) {
                let j = choose|j: int| 0 <= j < t.len() && (#[trigger] t[j]).1 == e.1;
                assert(s[j + 1] == t[j]);
            }
        }
        let k = lemma_split_index(t, e);
        assert forall|j: int| 0 <= j < k + 1 implies entry_lt(#[trigger] s[j], e) by {
            if j > 0 {
                assert(s[j] == t[j - 1]);
            }
        }
        assert forall|j: int| k + 1 <= j < s.len() implies entry_lt(e, #[trigger] s[j]) by {
            assert(s[j] == t[j - 1]);
        }
        k + 1
    }
}

/// Queueing a pod that is not queued and taking it out again gives back the
/// queue as it was, and nothing else.
pub proof fn lemma_push_then_remove(s: Seq<(u64, u64)>, e: (u64, u64))
    requires
        entries_sorted(s),
        !holds_pod(s, e.1),
    ensures
        pod_removed(insert_sorted(s, e), e.1, s),
        forall|t: Seq<(u64, u64)>| pod_removed(insert_sorted(s, e), e.1, t) ==> t == s,
{
    let i = lemma_split_index(s, e);
    lemma_insert_sorted(s, e, i);
    let u = s.insert(i, e);
    assert(u[i] == e);
    assert(u.remove(i) =~= s);
    assert forall|t: Seq<(u64, u64)>| pod_removed(u, e.1, t) implies t == s by {
        let j = choose|j: int| 0 <= j < u.len() && (#[trigger] u[j]).1 == e.1 && t == u.remove(j);
        if j < i {
            assert(u[j] == s[j]);
        } else if j > i {
            assert(u[j] == s[j - 1]);
        }
    }
}

/// `t` is `s` without the entry of this pod.
pub open spec fn pod_removed(s: Seq<(u64, u64)>, pod_uid: u64, t: Seq<(u64, u64)>) -> bool {
    exists|i: int| 0 <= i < s.len() && (#[trigger] s[i]).1 == pod_uid && t == s.remove(i)
}

/// `a + b`, or the largest time where that overflows.
pub open spec fn saturating_time_add(a: u64, b: u64) -> u64 {
    if a + b > u64::MAX {
        u64::MAX
    } else {
        (a + b) as u64
    }
}

/// The entries of a back-off queue: pods waiting until their exit time,
/// ordered by exit time and then by uid, one entry per pod.
pub struct BackOffEntries {
    items: Vec<(u64, u64)>,
}

impl View for BackOffEntries {
    type V = Seq<(u64, u64)>;

    closed spec fn view(&self) -> Seq<(u64, u64)> {
        self.items@
    }
}

proof fn lemma_insert_keeps(s: Seq<(u64, u64)>, e: (u64, u64), i: int)
    requires
        entries_sorted(s),
        pods_distinct(s),
        !holds_pod(s, e.1),
        0 <= i <= s.len(),
        forall|j: int| 0 <= j < i ==> entry_lt(#[trigger] s[j], e),
        forall|j: int| i <= j < s.len() ==> entry_lt(e, #[trigger] s[j]),
    ensures
        entries_sorted(s.insert(i, e)),
        pods_distinct(s.insert(i, e)),
{
    let t = s.insert(i, e);
    assert forall|a: int, b: int| 0 <= a < b < t.len() implies entry_lt(#[trigger] t[a], #[trigger] t[b]) by {
        if a < i && b > i {
            assert(entry_lt(s[a], e));
            assert(entry_lt(e, s[b - 1]));
        } else if a > i {
            assert(t[a] == s[a - 1] && t[b] == s[b - 1]);
        }
    }
    assert forall|a: int, b: int| 0 <= a < t.len() && 0 <= b < t.len() && a != b implies (#[trigger] t[a]).1
        != (#[trigger] t[b]).1 by {
        if a == i {
            let bb = if b < i { b } else { b - 1 };
            assert(t[b] == s[bb]);
        } else if b == i {
            let aa = if a < i { a } else { a - 1 };
            assert(t[a] == s[aa]);
        } else {
            let aa = if a < i { a } else { a - 1 };
            let bb = if b < i { b } else { b - 1 };
            assert(t[a] == s[aa] && t[b] == s[bb]);
        }
    }
}

proof fn lemma_remove_keeps(s: Seq<(u64, u64)>, i: int)
    requires
        entries_sorted(s),
        pods_distinct(s),
        0 <= i < s.len(),
    ensures
        entries_sorted(s.remove(i)),
        pods_distinct(s.remove(i)),
        !holds_pod(s.remove(i), s[i].1),
{
    let t = s.remove(i);
    assert forall|a: int, b: int| 0 <= a < b < t.len() implies entry_lt(#[trigger] t[a], #[trigger] t[b]) by {
        let aa = if a < i { a } else { a + 1 };
        let bb = if b < i { b } else { b + 1 };
        assert(t[a] == s[aa] && t[b] == s[bb]);
    }
    assert forall|a: int, b: int| 0 <= a < t.len() && 0 <= b < t.len() && a != b implies (#[trigger] t[a]).1
        != (#[trigger] t[b]).1 by {
        let aa = if a < i { a } else { a + 1 };
        let bb = if b < i { b } else { b + 1 };
        assert(t[a] == s[aa] && t[b] == s[bb]);
    }
    assert forall|a: int| 0 <= a < t.len() implies (#[trigger] t[a]).1 != s[i].1 by {
        let aa = if a < i { a } else { a + 1 };
        assert(t[a] == s[aa]);
    }
}

impl BackOffEntries {
    pub open spec fn wf(&self) -> bool {
        entries_sorted(self@) && pods_distinct(self@)
    }

    pub fn new() -> (r: Self)
        ensures
            r@ == Seq::<(u64, u64)>::empty(),
            r.wf(),
    {
        BackOffEntries { items: Vec::new() }
    }

    /// The index of the entry of this pod, if any.
    fn find(&self, pod_uid: u64) -> (r: Option<usize>)
        ensures
            match r {
                Some(i) => i < self@.len() && self@[i as int].1 == pod_uid,
                None => !holds_pod(self@, pod_uid),
            },
    {
        let mut i: usize = 0;
        while i < self.items.len()
            invariant
                i <= self.items.len(),
                forall|j: int| 0 <= j < i ==> (#[trigger] self.items@[j]).1 != pod_uid,
            decreases self.items.len() - i,
        {
            if self.items[i].1 == pod_uid {
                return Some(i);
            }
            i = i + 1;
        }
        None
    }

    /// The number of leading entries that come before `e`.
    fn position(&self, e: (u64, u64)) -> (r: usize)
        ensures
            r <= self@.len(),
            forall|j: int| 0 <= j < r ==> entry_lt(#[trigger] self@[j], e),
            r < self@.len() ==> !entry_lt(self@[r as int], e),
    {
        let mut i: usize = 0;
        while i < self.items.len()
            invariant
                i <= self.items.len(),
                forall|j: int| 0 <= j < i ==> entry_lt(#[trigger] self@[j], e),
            decreases self.items.len() - i,
        {
            let x = self.items[i];
            if !(x.0 < e.0 || (x.0 == e.0 && x.1 < e.1)) {
                return i;
            }
            i = i + 1;
        }
        i
    }

    pub fn contains(&self, pod_uid: u64) -> (r: bool)
        ensures
            r == holds_pod(self@, pod_uid),
    {
        self.find(pod_uid).is_some()
    }

    /// Queues a pod until `exit_time`, unless it is queued already.
    pub fn push(&mut self, pod_uid: u64, exit_time: u64)
        requires
            old(self).wf(),
        ensures
            final(self).wf(),
            holds_pod(old(self)@, pod_uid) ==> final(self)@ == old(self)@,
            !holds_pod(old(self)@, pod_uid) ==> entry_inserted(old(self)@, (exit_time, pod_uid), final(self)@),
            !holds_pod(old(self)@, pod_uid) ==> final(self)@ == insert_sorted(old(self)@, (exit_time, pod_uid)),
    {
        if self.find(pod_uid).is_some() {
            return;
        }
        let e = (exit_time, pod_uid);
        let i = self.position(e);
        proof {
            let s = self@;
            assert forall|j: int| i <= j < s.len() implies entry_lt(e, #[trigger] s[j]) by {
                assert(s[i as int].1 != pod_uid);
                if j > i {
                    assert(entry_lt(s[i as int], s[j]));
                }
            }
            lemma_insert_keeps(s, e, i as int);
            lemma_insert_sorted(s, e, i as int);
        }
        self.items.insert(i, e);
    }

    /// Takes the first entry if its exit time has come.
    pub fn try_pop(&mut self, current_time: u64) -> (r: Option<u64>)
        requires
            old(self).wf(),
        ensures
            final(self).wf(),
            (old(self)@.len() > 0 && old(self)@[0].0 <= current_time) ==> r == Some(old(self)@[0].1)
                && final(self)@ == old(self)@.drop_first(),
            !(old(self)@.len() > 0 && old(self)@[0].0 <= current_time) ==> r is None && final(self)@
                == old(self)@,
            r is Some ==> !holds_pod(final(self)@, r->0),
    {
        if self.items.len() == 0 || self.items[0].0 > current_time {
            return None;
        }
        proof {
            lemma_remove_keeps(self@, 0);
        }
        let e = self.items.remove(0);
        assert(self@ =~= old(self)@.drop_first());
        Some(e.1)
    }

    /// Removes the entry of this pod, if any.
    pub fn try_remove(&mut self, pod_uid: u64) -> (r: bool)
        requires
            old(self).wf(),
        ensures
            final(self).wf(),
            r == holds_pod(old(self)@, pod_uid),
            r ==> pod_removed(old(self)@, pod_uid, final(self)@),
            !r ==> final(self)@ == old(self)@,
            !holds_pod(final(self)@, pod_uid),
    {
        match self.find(pod_uid) {
            None => false,
            Some(i) => {
                proof {
                    lemma_remove_keeps(self@, i as int);
                }
                self.items.remove(i);
                true
            },
        }
    }

    pub fn len(&self) -> (r: usize)
        ensures
            r == self@.len(),
    {
        self.items.len()
    }
}

/// A queue where pods that failed to be scheduled wait before they are tried
/// again. Times are integer ticks of the simulation clock.
pub trait TraitBackOffQ {
    /// The waiting pods as `(exit time, pod uid)`, by exit time and then uid.
    spec fn entries(&self) -> Seq<(u64, u64)>;

    spec fn wf(&self) -> bool;

    /// How long a pod that has failed `failed_attempts` times waits.
    spec fn timeout(&self, failed_attempts: u64) -> u64;

    /// Queues a pod, unless it is queued already, until `current_time` plus
    /// its timeout.
    fn push(&mut self, pod_uid: u64, failed_attempts: u64, current_time: u64)
        requires
            old(self).wf(),
        ensures
            final(self).wf(),
            forall|a: u64| #[trigger] final(self).timeout(a) == old(self).timeout(a),
            holds_pod(old(self).entries(), pod_uid) ==> final(self).entries() == old(self).entries(),
            !holds_pod(old(self).entries(), pod_uid) ==> entry_inserted(
                old(self).entries(),
                (saturating_time_add(current_time, old(self).timeout(failed_attempts)), pod_uid),
                final(self).entries(),
            ),
            !holds_pod(old(self).entries(), pod_uid) ==> final(self).entries() == insert_sorted(
                old(self).entries(),
                (saturating_time_add(current_time, old(self).timeout(failed_attempts)), pod_uid),
            ),
    ;

    /// Takes the pod of earliest exit time (least uid among equal ones) if
    /// that time has come.
    fn try_pop(&mut self, current_time: u64) -> (r: Option<u64>)
        requires
            old(self).wf(),
        ensures
            final(self).wf(),
            forall|a: u64| #[trigger] final(self).timeout(a) == old(self).timeout(a),
            (old(self).entries().len() > 0 && old(self).entries()[0].0 <= current_time) ==> r == Some(
                old(self).entries()[0].1,
            ) && final(self).entries() == old(self).entries().drop_first(),
            !(old(self).entries().len() > 0 && old(self).entries()[0].0 <= current_time) ==> r is None
                && final(self).entries() == old(self).entries(),
            r is Some ==> !holds_pod(final(self).entries(), r->0),
    ;

    /// Whether the pod is queued.
    fn contains(&self, pod_uid: u64) -> (r: bool)
        ensures
            r == holds_pod(self.entries(), pod_uid),
    ;

    /// Takes a pod out of the queue, telling whether it was there.
    fn try_remove(&mut self, pod_uid: u64) -> (r: bool)
        requires
            old(self).wf(),
        ensures
            final(self).wf(),
            forall|a: u64| #[trigger] final(self).timeout(a) == old(self).timeout(a),
            r == holds_pod(old(self).entries(), pod_uid),
            r ==> pod_removed(old(self).entries(), pod_uid, final(self).entries()),
            !r ==> final(self).entries() == old(self).entries(),
    ;
}

/// `initial` doubled `attempts` times.
pub open spec fn doubled(initial: u64, attempts: nat) -> int
    decreases attempts,
{
    if attempts == 0 {
        initial as int
    } else {
        2 * doubled(initial, (attempts - 1) as nat)
    }
}

/// The exponential back-off: `initial * 2^attempts`, at most `max`.
pub open spec fn exponential_timeout(initial: u64, max: u64, attempts: u64) -> u64 {
    if doubled(initial, attempts as nat) >= max as int {
        max
    } else {
        doubled(initial, attempts as nat) as u64
    }
}

proof fn lemma_doubled_monotonic(initial: u64, k: nat, a: nat)
    requires
        k <= a,
    ensures
        doubled(initial, k) <= doubled(initial, a),
        doubled(initial, a) >= 0,
    decreases a,
{
    if a > 0 {
        lemma_doubled_monotonic(initial, 0, (a - 1) as nat);
        if k < a {
            lemma_doubled_monotonic(initial, k, (a - 1) as nat);
        }
    }
}

/// Back-off that doubles with each failed attempt, up to a maximum.
pub struct BackOffQExponential {
    initial_backoff: u64,
    max_backoff: u64,
    queue: BackOffEntries,
}

impl BackOffQExponential {
    pub closed spec fn initial(&self) -> u64 {
        self.initial_backoff
    }

    pub closed spec fn max(&self) -> u64 {
        self.max_backoff
    }

    pub fn new(initial_backoff: u64, max_backoff: u64) -> (r: Self)
        ensures
            r.wf(),
            r.entries() == Seq::<(u64, u64)>::empty(),
            r.initial() == initial_backoff,
            r.max() == max_backoff,
    {
        BackOffQExponential { initial_backoff, max_backoff, queue: BackOffEntries::new() }
    }

    /// `initial * 2^attempts`, at most `max`.
    pub fn backoff_timeout(&self, failed_attempts: u64) -> (r: u64)
        ensures
            r == exponential_timeout(self.initial(), self.max(), failed_attempts),
    {
        if self.initial_backoff == 0 {
            proof {
                lemma_doubled_zero(failed_attempts as nat);
            }
            return 0;
        }
        let max = self.max_backoff as u128;
        let mut t: u128 = self.initial_backoff as u128;
        let mut k: u64 = 0;
        while k < failed_attempts && t < max
            invariant
                k <= failed_attempts,
                t as int == doubled(self.initial_backoff, k as nat),
                t <= 2 * (u64::MAX as int),
                max == self.max_backoff as u128,
                self.initial_backoff > 0,
            decreases (failed_attempts - k) as int,
        {
            t = t + t;
            k = k + 1;
        }
        proof {
            lemma_doubled_monotonic(self.initial_backoff, k as nat, failed_attempts as nat);
        }
        if t >= max {
            self.max_backoff
        } else {
            t as u64
        }
    }
}

proof fn lemma_doubled_zero(a: nat)
    ensures
        doubled(0, a) == 0,
    decreases a,
{
    if a > 0 {
        lemma_doubled_zero((a - 1) as nat);
    }
}

impl TraitBackOffQ for BackOffQExponential {
    closed spec fn entries(&self) -> Seq<(u64, u64)> {
        self.queue@
    }

    closed spec fn wf(&self) -> bool {
        self.queue.wf()
    }

    open spec fn timeout(&self, failed_attempts: u64) -> u64 {
        exponential_timeout(self.initial(), self.max(), failed_attempts)
    }

    fn push(&mut self, pod_uid: u64, failed_attempts: u64, current_time: u64) {
        let timeout = self.backoff_timeout(failed_attempts);
        let exit_time = current_time.saturating_add(timeout);
        self.queue.push(pod_uid, exit_time);
    }

    fn try_pop(&mut self, current_time: u64) -> (r: Option<u64>) {
        self.queue.try_pop(current_time)
    }

    fn contains(&self, pod_uid: u64) -> (r: bool) {
        self.queue.contains(pod_uid)
    }

    fn try_remove(&mut self, pod_uid: u64) -> (r: bool) {
        self.queue.try_remove(pod_uid)
    }
}

/// Back-off of the same length whatever the number of failed attempts.
pub struct BackOffQConstant {
    backoff: u64,
    queue: BackOffEntries,
}

impl BackOffQConstant {
    pub closed spec fn backoff_time(&self) -> u64 {
        self.backoff
    }

    pub fn new(backoff: u64) -> (r: Self)
        ensures
            r.wf(),
            r.entries() == Seq::<(u64, u64)>::empty(),
            r.backoff_time() == backoff,
    {
        BackOffQConstant { backoff, queue: BackOffEntries::new() }
    }
}

impl TraitBackOffQ for BackOffQConstant {
    closed spec fn entries(&self) -> Seq<(u64, u64)> {
        self.queue@
    }

    closed spec fn wf(&self) -> bool {
        self.queue.wf()
    }

    open spec fn timeout(&self, failed_attempts: u64) -> u64 {
        self.backoff_time()
    }

    fn push(&mut self, pod_uid: u64, failed_attempts: u64, current_time: u64) {
        let exit_time = current_time.saturating_add(self.backoff);
        self.queue.push(pod_uid, exit_time);
    }

    fn try_pop(&mut self, current_time: u64) -> (r: Option<u64>) {
        self.queue.try_pop(current_time)
    }

    fn contains(&self, pod_uid: u64) -> (r: bool) {
        self.queue.contains(pod_uid)
    }

    fn try_remove(&mut self, pod_uid: u64) -> (r: bool) {
        self.queue.try_remove(pod_uid)
    }
}

} // verus!
