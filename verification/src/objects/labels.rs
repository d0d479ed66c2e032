use vstd::prelude::*;

verus! {

/// The value bound to `key` in a list of entries: that of the first entry
/// with that key.
pub open spec fn lookup(entries: Seq<(Seq<char>, Seq<char>)>, key: Seq<char>) -> Option<Seq<char>>
    decreases entries.len(),
{
    if entries.len() == 0 {
        None
    } else if entries[0].0 == key {
        Some(entries[0].1)
    } else {
        lookup(entries.drop_first(), key)
    }
}

/// No key occurs in two entries.
pub open spec fn keys_distinct(entries: Seq<(Seq<char>, Seq<char>)>) -> bool {
    forall|i: int, j: int|
        0 <= i < entries.len() && 0 <= j < entries.len() && i != j ==> #[trigger] entries[i].0
            != #[trigger] entries[j].0
}

pub proof fn lemma_lookup_none(entries: Seq<(Seq<char>, Seq<char>)>, key: Seq<char>)
    requires
        forall|j: int| 0 <= j < entries.len() ==> #[trigger] entries[j].0 != key,
    ensures
        lookup(entries, key) == None::<Seq<char>>,
    decreases entries.len(),
{
    if entries.len() > 0 {
        assert forall|j: int| 0 <= j < entries.drop_first().len() implies #[trigger] entries.drop_first()[j].0 != key by {
            assert(entries.drop_first()[j] == entries[j + 1]);
        }
        lemma_lookup_none(entries.drop_first(), key);
    }
}

pub proof fn lemma_lookup_at(entries: Seq<(Seq<char>, Seq<char>)>, key: Seq<char>, i: int)
    requires
        0 <= i < entries.len(),
        entries[i].0 == key,
        forall|j: int| 0 <= j < i ==> #[trigger] entries[j].0 != key,
    ensures
        lookup(entries, key) == Some(entries[i].1),
    decreases i,
{
    if i > 0 {
        assert forall|j: int| 0 <= j < i - 1 implies #[trigger] entries.drop_first()[j].0 != key by {
            assert(entries.drop_first()[j] == entries[j + 1]);
        }
        lemma_lookup_at(entries.drop_first(), key, i - 1);
    }
}

/// A map from strings to strings (labels, node selectors), kept as a list of
/// entries whose keys are distinct.
#[derive(Debug)]
pub struct StringMap {
    entries: Vec<(String, String)>,
}

impl View for StringMap {
    type V = Seq<(Seq<char>, Seq<char>)>;

    /// The entries, each as a key and a value.
    closed spec fn view(&self) -> Seq<(Seq<char>, Seq<char>)> {
        self.entries@.map_values(|e: (String, String)| (e.0@, e.1@))
    }
}

impl StringMap {
    spec fn entries_view(&self) -> Seq<(Seq<char>, Seq<char>)> {
        self@
    }

    pub open spec fn entries(&self) -> Seq<(Seq<char>, Seq<char>)> {
        self@
    }

    /// The value bound to a key.
    pub open spec fn get_spec(&self, key: Seq<char>) -> Option<Seq<char>> {
        lookup(self@, key)
    }

    pub open spec fn wf(&self) -> bool {
        keys_distinct(self@)
    }

    pub fn new() -> (r: Self)
        ensures
            r.entries().len() == 0,
            r.wf(),
    {
        let r = StringMap { entries: Vec::new() };
        assert(r.entries_view() =~= Seq::empty());
        r
    }

    pub fn len(&self) -> (r: usize)
        ensures
            r == self.entries().len(),
    {
        self.entries.len()
    }

    /// The key and value of the entry at index `i`.
    pub fn entry(&self, i: usize) -> (r: (&String, &String))
        requires
            i < self.entries().len(),
        ensures
            r.0@ == self.entries()[i as int].0,
            r.1@ == self.entries()[i as int].1,
    {
        let e = &self.entries[i];
        (&e.0, &e.1)
    }

    /// The value bound to `key`, if any.
    pub fn get(&self, key: &String) -> (r: Option<&String>)
        ensures
            match r {
                Some(v) => self.get_spec(key@) == Some(v@),
                None => self.get_spec(key@) is None,
            },
    {
        let mut i: usize = 0;
        while i < self.entries.len()
            invariant
                i <= self.entries.len(),
                forall|j: int| 0 <= j < i ==> #[trigger] self.entries_view()[j].0 != key@,
            decreases self.entries.len() - i,
        {
            if self.entries[i].0 == *key {
                proof {
                    lemma_lookup_at(self.entries_view(), key@, i as int);
                }
                return Some(&self.entries[i].1);
            }
            i = i + 1;
        }
        proof {
            lemma_lookup_none(self.entries_view(), key@);
        }
        None
    }

    /// Binds `key` to `value`, replacing an earlier binding of `key`.
    pub fn insert(&mut self, key: String, value: String)
        requires
            old(self).wf(),
        ensures
            final(self).wf(),
            final(self).get_spec(key@) == Some(value@),
            forall|k: Seq<char>| k != key@ ==> #[trigger] final(self).get_spec(k) == old(self).get_spec(k),
    {
        let ghost old_entries = self.entries_view();
        let mut i: usize = 0;
        while i < self.entries.len()
            invariant
                i <= self.entries.len(),
                self.entries_view() == old_entries,
                old(self)@ == old_entries,
                keys_distinct(old_entries),
                forall|j: int| 0 <= j < i ==> #[trigger] self.entries_view()[j].0 != key@,
            decreases self.entries.len() - i,
        {
            if self.entries[i].0 == key {
                assert(old_entries[i as int].0 == key@);
                self.entries.set(i, (key, value));
                proof {
                    let nv = self.entries_view();
                    assert(nv =~= old_entries.update(i as int, (key@, value@)));
                    assert forall|a: int, b: int|
                        0 <= a < nv.len() && 0 <= b < nv.len() && a != b implies #[trigger] nv[a].0
                        != #[trigger] nv[b].0 by {
                        assert(old_entries[a].0 != old_entries[b].0);
                    }
                    lemma_lookup_at(nv, key@, i as int);
                    assert forall|k: Seq<char>| k != key@ implies #[trigger] lookup(nv, k) == lookup(old_entries, k) by {
                        lemma_lookup_same(old_entries, nv, k, i as int);
                    }
                    assert(self@ == nv);
                    assert(old(self)@ == old_entries);
                }
                return;
            }
            i = i + 1;
        }
        self.entries.push((key, value));
        proof {
            let nv = self.entries_view();
            assert(nv =~= old_entries.push((key@, value@)));
            assert forall|a: int, b: int|
                0 <= a < nv.len() && 0 <= b < nv.len() && a != b implies #[trigger] nv[a].0
                != #[trigger] nv[b].0 by {
                if a < old_entries.len() && b < old_entries.len() {
                    assert(old_entries[a].0 != old_entries[b].0);
                }
            }
            lemma_lookup_at(nv, key@, old_entries.len() as int);
            assert forall|k: Seq<char>| k != key@ implies #[trigger] lookup(nv, k) == lookup(old_entries, k) by {
                lemma_lookup_push(old_entries, (key@, value@), k);
            }
        }
    }
}

proof fn lemma_lookup_same(
    a: Seq<(Seq<char>, Seq<char>)>,
    b: Seq<(Seq<char>, Seq<char>)>,
    k: Seq<char>,
    i: int,
)
    requires
        a.len() == b.len(),
        0 <= i < a.len(),
        a[i].0 != k,
        b[i].0 != k,
        forall|j: int| 0 <= j < a.len() && j != i ==> a[j] == b[j],
    ensures
        lookup(a, k) == lookup(b, k),
    decreases a.len(),
{
    if a.len() > 0 && i > 0 {
        assert forall|j: int| 0 <= j < a.drop_first().len() && j != i - 1 implies a.drop_first()[j]
            == b.drop_first()[j] by {
            assert(a[j + 1] == b[j + 1]);
        }
        lemma_lookup_same(a.drop_first(), b.drop_first(), k, i - 1);
    } else if a.len() > 0 {
        assert(a.drop_first() =~= b.drop_first());
    }
}

proof fn lemma_lookup_push(a: Seq<(Seq<char>, Seq<char>)>, e: (Seq<char>, Seq<char>), k: Seq<char>)
    requires
        e.0 != k,
    ensures
        lookup(a.push(e), k) == lookup(a, k),
    decreases a.len(),
{
    if a.len() > 0 {
        assert(a.push(e)[0] == a[0]);
        assert(a.push(e).drop_first() =~= a.drop_first().push(e));
        lemma_lookup_push(a.drop_first(), e, k);
    } else {
        assert(a.push(e)[0] == e);
        assert(a.push(e).drop_first() =~= Seq::<(Seq<char>, Seq<char>)>::empty());
        assert(lookup(Seq::<(Seq<char>, Seq<char>)>::empty(), k) is None);
    }
}

impl Clone for StringMap {
    fn clone(&self) -> (r: Self)
        ensures
            r@ == self@,
    {
        let mut v: Vec<(String, String)> = Vec::new();
        let mut i: usize = 0;
        while i < self.entries.len()
            invariant
                i <= self.entries.len(),
                v@ == self.entries@.subrange(0, i as int),
            decreases self.entries.len() - i,
        {
            let e = &self.entries[i];
            v.push((e.0.clone(), e.1.clone()));
            assert(v@ =~= self.entries@.subrange(0, i + 1));
            i = i + 1;
        }
        assert(v@ =~= self.entries@);
        let r = StringMap { entries: v };
        assert(r@ =~= self@);
        r
    }
}

} // verus!
