use vstd::prelude::*;

verus! {

/// `a` comes strictly before `b` when `(QoS rank, priority, pod uid)` keys
/// are compared lexicographically.
pub open spec fn key_lt(a: (u8, i64, u64), b: (u8, i64, u64)) -> bool {
    a.0 < b.0 || (a.0 == b.0 && (a.1 < b.1 || (a.1 == b.1 && a.2 < b.2)))
}

/// Whether key `a` comes strictly before key `b`.
pub fn key_less(a: (u8, i64, u64), b: (u8, i64, u64)) -> (r: bool)
    ensures
        r == key_lt(a, b),
{
    a.0 < b.0 || (a.0 == b.0 && (a.1 < b.1 || (a.1 == b.1 && a.2 < b.2)))
}

/// The keys strictly increase along the sequence.
pub open spec fn keys_sorted(s: Seq<(u8, i64, u64)>) -> bool {
    forall|i: int, j: int| 0 <= i < j < s.len() ==> key_lt(#[trigger] s[i], #[trigger] s[j])
}

/// `s` with `k` put where the order places it; `s` itself if `k` is in it.
pub open spec fn key_added(s: Seq<(u8, i64, u64)>, k: (u8, i64, u64)) -> Seq<(u8, i64, u64)>
    decreases s.len(),
{
    if s.len() == 0 {
        seq![k]
    } else if key_lt(k, s[0]) {
        seq![k] + s
    } else if k == s[0] {
        s
    } else {
        seq![s[0]] + key_added(s.drop_first(), k)
    }
}

/// `s` without its first occurrence of `k`; `s` itself if `k` is not in it.
pub open spec fn key_dropped(s: Seq<(u8, i64, u64)>, k: (u8, i64, u64)) -> Seq<(u8, i64, u64)>
    decreases s.len(),
{
    if s.len() == 0 {
        s
    } else if s[0] == k {
        s.drop_first()
    } else {
        seq![s[0]] + key_dropped(s.drop_first(), k)
    }
}

pub proof fn lemma_key_added_at(s: Seq<(u8, i64, u64)>, k: (u8, i64, u64), i: int)
    requires
        0 <= i <= s.len(),
        forall|j: int| 0 <= j < i ==> key_lt(#[trigger] s[j], k),
        forall|j: int| i <= j < s.len() ==> key_lt(k, #[trigger] s[j]),
    ensures
        key_added(s, k) == s.insert(i, k),
    decreases s.len(),
{
    if s.len() == 0 {
        assert(s.insert(i, k) =~= seq![k]);
    } else if i == 0 {
        assert(s.insert(0, k) =~= seq![k] + s);
    } else {
        assert(key_lt(s[0], k));
        let t = s.drop_first();
        assert forall|j: int| 0 <= j < i - 1 implies key_lt(#[trigger] t[j], k) by {
            assert(t[j] == s[j + 1]);
        }
        assert forall|j: int| i - 1 <= j < t.len() implies key_lt(k, #[trigger] t[j]) by {
            assert(t[j] == s[j + 1]);
        }
        lemma_key_added_at(t, k, i - 1);
        assert(s.insert(i, k) =~= seq![s[0]] + t.insert(i - 1, k));
    }
}

pub proof fn lemma_key_present(s: Seq<(u8, i64, u64)>, k: (u8, i64, u64), i: int)
    requires
        keys_sorted(s),
        0 <= i < s.len(),
        s[i] == k,
    ensures
        key_added(s, k) == s,
        key_dropped(s, k) == s.remove(i),
    decreases s.len(),
{
    if i > 0 {
        assert(key_lt(s[0], k));
        let t = s.drop_first();
        assert(keys_sorted(t)) by {
            assert forall|a: int, b: int| 0 <= a < b < t.len() implies key_lt(#[trigger] t[a], #[trigger] t[b]) by {
                assert(t[a] == s[a + 1] && t[b] == s[b + 1]);
            }
        }
        assert(t[i - 1] == k);
        lemma_key_present(t, k, i - 1);
        assert(seq![s[0]] + t =~= s);
        assert(s.remove(i) =~= seq![s[0]] + t.remove(i - 1));
    } else {
        assert(s.remove(0) =~= s.drop_first());
    }
}

proof fn lemma_key_absent(s: Seq<(u8, i64, u64)>, k: (u8, i64, u64))
    requires
        !s.contains(k),
    ensures
        key_dropped(s, k) == s,
    decreases s.len(),
{
    if s.len() > 0 {
        assert(s[0] != k);
        let t = s.drop_first();
        assert(!t.contains(k)) by {
            if t.contains(k) {
                let j = choose|j: int| 0 <= j < t.len() && t[j] == k;
                assert(s[j + 1] == k);
            }
        }
        lemma_key_absent(t, k);
        assert(seq![s[0]] + t =~= s);
    }
}

/// Adding a key that is not there and removing it again gives back the
/// order as it was.
pub proof fn lemma_add_then_remove(s: Seq<(u8, i64, u64)>, k: (u8, i64, u64))
    requires
        keys_sorted(s),
        !s.contains(k),
    ensures
        key_dropped(key_added(s, k), k) == s,
    decreases s.len(),
{
    if s.len() == 0 {
        assert(key_added(s, k) =~= seq![k]);
        assert(seq![k].drop_first() =~= s);
    } else if key_lt(k, s[0]) {
        assert((seq![k] + s)[0] == k);
        assert((seq![k] + s).drop_first() =~= s);
    } else {
        assert(k != s[0]);
        let t = s.drop_first();
        assert(keys_sorted(t)) by {
            assert forall|a: int, b: int| 0 <= a < b < t.len() implies key_lt(#[trigger] t[a], #[trigger] t[b]) by {
                assert(t[a] == s[a + 1] && t[b] == s[b + 1]);
            }
        }
        assert(!t.contains(k)) by {
            if t.contains(k) {
                let j = choose|j: int| 0 <= j < t.len() && t[j] == k;
                assert(s[j + 1] == k);
            }
        }
        lemma_add_then_remove(t, k);
        let a = seq![s[0]] + key_added(t, k);
        assert(a[0] == s[0]);
        assert(a.drop_first() =~= key_added(t, k));
        assert(seq![s[0]] + t =~= s);
    }
}

/// The pods of a node in the order they are evicted: by QoS class, then
/// priority, then uid, lowest first. Each key occurs once.
pub struct EvictionOrder {
    keys: Vec<(u8, i64, u64)>,
}

impl View for EvictionOrder {
    type V = Seq<(u8, i64, u64)>;

    closed spec fn view(&self) -> Seq<(u8, i64, u64)> {
        self.keys@
    }
}

impl EvictionOrder {
    pub open spec fn wf(&self) -> bool {
        keys_sorted(self@)
    }

    pub fn new() -> (r: Self)
        ensures
            r.wf(),
            r@ == Seq::<(u8, i64, u64)>::empty(),
    {
        EvictionOrder { keys: Vec::new() }
    }

    /// The number of leading keys below `k`, and whether the next one is `k`.
    fn locate(&self, k: (u8, i64, u64)) -> (r: (usize, bool))
        requires
            self.wf(),
        ensures
            r.0 <= self@.len(),
            forall|j: int| 0 <= j < r.0 ==> key_lt(#[trigger] self@[j], k),
            r.1 ==> r.0 < self@.len() && self@[r.0 as int] == k,
            !r.1 ==> forall|j: int| r.0 <= j < self@.len() ==> key_lt(k, #[trigger] self@[j]),
    {
        let mut i: usize = 0;
        while i < self.keys.len()
            invariant
                self.wf(),
                i <= self.keys.len(),
                forall|j: int| 0 <= j < i ==> key_lt(#[trigger] self@[j], k),
            decreases self.keys.len() - i,
        {
            let x = self.keys[i];
            let below = x.0 < k.0 || (x.0 == k.0 && (x.1 < k.1 || (x.1 == k.1 && x.2 < k.2)));
            if !below {
                if x.0 == k.0 && x.1 == k.1 && x.2 == k.2 {
                    return (i, true);
                }
                assert forall|j: int| i <= j < self@.len() implies key_lt(k, #[trigger] self@[j]) by {
                    if j > i {
                        assert(key_lt(self@[i as int], self@[j]));
                    }
                }
                return (i, false);
            }
            i = i + 1;
        }
        (i, false)
    }

    /// Adds a key; a key already present stays once.
    pub fn add(&mut self, k: (u8, i64, u64))
        requires
            old(self).wf(),
        ensures
            final(self).wf(),
            final(self)@ == key_added(old(self)@, k),
            final(self)@.contains(k),
            forall|x: (u8, i64, u64)| #[trigger] final(self)@.contains(x) <==> (old(self)@.contains(x) || x == k),
    {
        let (i, found) = self.locate(k);
        if found {
            proof {
                lemma_key_present(self@, k, i as int);
            }
            return;
        }
        proof {
            lemma_key_added_at(self@, k, i as int);
            let s = self@;
            let t = s.insert(i as int, k);
            assert forall|a: int, b: int| 0 <= a < b < t.len() implies key_lt(#[trigger] t[a], #[trigger] t[b]) by {
                if a < i && b > i {
                    assert(key_lt(s[a], k));
                    assert(key_lt(k, s[b - 1]));
                } else if a > i {
                    assert(t[a] == s[a - 1] && t[b] == s[b - 1]);
                }
            }
            assert forall|x: (u8, i64, u64)| #[trigger] t.contains(x) <==> (s.contains(x) || x == k) by {
                if t.contains(x) {
                    let j = choose|j: int| 0 <= j < t.len() && t[j] == x;
                    if j < i {
                        assert(s[j] == x);
                    } else if j > i {
                        assert(s[j - 1] == x);
                    }
                }
                if s.contains(x) {
                    let j = choose|j: int| 0 <= j < s.len() && s[j] == x;
                    if j < i {
                        assert(t[j] == x);
                    } else {
                        assert(t[j + 1] == x);
                    }
                }
                if x == k {
                    assert(t[i as int] == k);
                }
            }
        }
        self.keys.insert(i, k);
    }

    /// Removes a key, telling whether it was present.
    pub fn remove(&mut self, k: (u8, i64, u64)) -> (r: bool)
        requires
            old(self).wf(),
        ensures
            final(self).wf(),
            r == old(self)@.contains(k),
            final(self)@ == key_dropped(old(self)@, k),
            !final(self)@.contains(k),
            forall|x: (u8, i64, u64)| #[trigger] final(self)@.contains(x) <==> (old(self)@.contains(x) && x != k),
    {
        let (i, found) = self.locate(k);
        if !found {
            proof {
                let s = self@;
                assert(!s.contains(k)) by {
                    if s.contains(k) {
                        let j = choose|j: int| 0 <= j < s.len() && s[j] == k;
                        if j < i {
                            assert(key_lt(s[j], k));
                        } else {
                            assert(key_lt(k, s[j]));
                        }
                    }
                }
                lemma_key_absent(s, k);
            }
            return false;
        }
        proof {
            let s = self@;
            lemma_key_present(s, k, i as int);
            let t = s.remove(i as int);
            assert forall|a: int, b: int| 0 <= a < b < t.len() implies key_lt(#[trigger] t[a], #[trigger] t[b]) by {
                let aa = if a < i { a } else { a + 1 };
                let bb = if b < i { b } else { b + 1 };
                assert(t[a] == s[aa] && t[b] == s[bb]);
            }
            assert forall|x: (u8, i64, u64)| #[trigger] t.contains(x) <==> (s.contains(x) && x != k) by {
                if t.contains(x) {
                    let j = choose|j: int| 0 <= j < t.len() && t[j] == x;
                    let jj = if j < i { j } else { j + 1 };
                    assert(s[jj] == x);
                    assert(jj != i);
                    if jj < i {
                        assert(key_lt(s[jj], s[i as int]));
                    } else {
                        assert(key_lt(s[i as int], s[jj]));
                    }
                }
                if s.contains(x) && x != k {
                    let j = choose|j: int| 0 <= j < s.len() && s[j] == x;
                    if j < i {
                        assert(t[j] == x);
                    } else {
                        assert(j != i);
                        assert(t[j - 1] == x);
                    }
                }
            }
        }
        self.keys.remove(i);
        true
    }

    /// The key evicted first, if any.
    pub fn first(&self) -> (r: Option<(u8, i64, u64)>)
        ensures
            self@.len() == 0 ==> r is None,
            self@.len() > 0 ==> r == Some(self@[0]),
    {
        if self.keys.len() == 0 {
            None
        } else {
            Some(self.keys[0])
        }
    }

    /// Takes out the key evicted first, if any.
    pub fn pop_first(&mut self) -> (r: Option<(u8, i64, u64)>)
        requires
            old(self).wf(),
        ensures
            final(self).wf(),
            old(self)@.len() == 0 ==> r is None && final(self)@ == old(self)@,
            old(self)@.len() > 0 ==> r == Some(old(self)@[0]) && final(self)@ == old(self)@.drop_first(),
    {
        if self.keys.len() == 0 {
            return None;
        }
        let k = self.keys.remove(0);
        proof {
            let s = old(self)@;
            assert(self@ =~= s.drop_first());
            assert forall|a: int, b: int| 0 <= a < b < self@.len() implies key_lt(#[trigger] self@[a], #[trigger] self@[b]) by {
                assert(self@[a] == s[a + 1] && self@[b] == s[b + 1]);
            }
        }
        Some(k)
    }

    pub fn len(&self) -> (r: usize)
        ensures
            r == self@.len(),
    {
        self.keys.len()
    }

    pub fn is_empty(&self) -> (r: bool)
        ensures
            r == (self@.len() == 0),
    {
        self.keys.len() == 0
    }

    pub fn clear(&mut self)
        ensures
            final(self).wf(),
            final(self)@ == Seq::<(u8, i64, u64)>::empty(),
    {
        self.keys.clear();
    }
}

} // verus!
