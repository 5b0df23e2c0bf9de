//! A keyed cache: look a value up, or compute and remember it.
//!
//! Keys are integers and values are copyable, so every contract can name
//! the exact value stored.  The original use — sharing one cache among
//! threads behind a lock — is the embedding's concern, like the thread
//! plumbing around the scheduler; the store itself is verified here.

use vstd::prelude::*;

verus! {

/// The first value stored under `key`, scanning from the front; with
/// unique keys, the only one.
pub open spec fn find_value<V>(s: Seq<(u64, V)>, key: u64) -> Option<V>
    decreases s.len(),
{
    if s.len() == 0 {
        None
    } else if s.first().0 == key {
        Some(s.first().1)
    } else {
        find_value(s.drop_first(), key)
    }
}

/// Some entry carries this key.
pub open spec fn has_key<V>(s: Seq<(u64, V)>, key: u64) -> bool {
    exists|i: int| 0 <= i < s.len() && (#[trigger] s[i]).0 == key
}

/// No two entries share a key.
pub open spec fn keys_unique<V>(s: Seq<(u64, V)>) -> bool {
    forall|i: int, j: int| 0 <= i < j < s.len() ==> (#[trigger] s[i]).0 != (#[trigger] s[j]).0
}

proof fn lemma_find_none<V>(s: Seq<(u64, V)>, key: u64)
    requires
        forall|i: int| 0 <= i < s.len() ==> (#[trigger] s[i]).0 != key,
    ensures
        find_value(s, key) is None,
    decreases s.len(),
{
    if s.len() > 0 {
        assert forall|i: int| 0 <= i < s.drop_first().len() implies (#[trigger] s.drop_first()[i]).0
            != key by {
            assert(s.drop_first()[i] == s[i + 1]);
        }
        lemma_find_none(s.drop_first(), key);
    }
}

proof fn lemma_find_at<V>(s: Seq<(u64, V)>, key: u64, j: int)
    requires
        0 <= j < s.len(),
        s[j].0 == key,
        forall|i: int| 0 <= i < j ==> (#[trigger] s[i]).0 != key,
    ensures
        find_value(s, key) == Some(s[j].1),
    decreases j,
{
    if j > 0 {
        assert forall|i: int| 0 <= i < j - 1 implies (#[trigger] s.drop_first()[i]).0 != key by {
            assert(s.drop_first()[i] == s[i + 1]);
        }
        lemma_find_at(s.drop_first(), key, j - 1);
    }
}

proof fn lemma_find_push<V>(s: Seq<(u64, V)>, e: (u64, V), key: u64)
    ensures
        e.0 != key ==> find_value(s.push(e), key) == find_value(s, key),
        e.0 == key && !has_key(s, key) ==> find_value(s.push(e), key) == Some(e.1),
    decreases s.len(),
{
    if s.len() == 0 {
        assert(s.push(e).first() == e);
        assert(s.push(e).drop_first() =~= Seq::<(u64, V)>::empty());
        if e.0 != key {
            assert(find_value(s.push(e), key) == find_value(s.push(e).drop_first(), key));
        }
    } else {
        assert(s.push(e).first() == s.first());
        assert(s.push(e).drop_first() =~= s.drop_first().push(e));
        lemma_find_push(s.drop_first(), e, key);
        if e.0 != key {
            if s.first().0 == key {
                assert(find_value(s.push(e), key) == Some(s.first().1));
            } else {
                assert(find_value(s.push(e), key) == find_value(s.drop_first().push(e), key));
                assert(find_value(s, key) == find_value(s.drop_first(), key));
            }
        }
        if e.0 == key && !has_key(s, key) {
            assert(s.first().0 != key);
            assert(!has_key(s.drop_first(), key)) by {
                if has_key(s.drop_first(), key) {
                    let i = choose|i: int|
                        0 <= i < s.drop_first().len() && (#[trigger] s.drop_first()[i]).0 == key;
                    assert(s[i + 1].0 == key);
                }
            }
        }
    }
}

proof fn lemma_find_update_other<V>(s: Seq<(u64, V)>, j: int, e: (u64, V), key: u64)
    requires
        0 <= j < s.len(),
        s[j].0 == e.0,
        e.0 != key,
    ensures
        find_value(s.update(j, e), key) == find_value(s, key),
    decreases j,
{
    if j == 0 {
        assert(s.update(j, e).drop_first() =~= s.drop_first());
    } else {
        assert(s.update(j, e).drop_first() =~= s.drop_first().update(j - 1, e));
        lemma_find_update_other(s.drop_first(), j - 1, e, key);
        assert(s.update(j, e).first() == s.first());
    }
}

/// The cache: entries in insertion order, keys unique.
pub struct Cache<V> {
    entries: Vec<(u64, V)>,
}

impl<V: Copy> Cache<V> {
    /// The entries, oldest first.
    pub closed spec fn spec_entries(self) -> Seq<(u64, V)> {
        self.entries@
    }

    /// The cache's invariant: no key is stored twice.
    pub open spec fn wf(self) -> bool {
        keys_unique(self.spec_entries())
    }

    /// An empty cache.
    pub fn new() -> (c: Cache<V>)
        ensures
            c.wf(),
            c.spec_entries() == Seq::<(u64, V)>::empty(),
    {
        Cache { entries: Vec::new() }
    }

    /// The value stored under `key`, if any.
    pub fn get(&self, key: u64) -> (r: Option<V>)
        ensures
            r == find_value(self.spec_entries(), key),
            (r is Some) == has_key(self.spec_entries(), key),
    {
        let n = self.entries.len();
        let mut k: usize = 0;
        while k < n
            invariant
                k <= n,
                n == self.spec_entries().len(),
                forall|i: int| 0 <= i < k ==> (#[trigger] self.spec_entries()[i]).0 != key,
            decreases n - k,
        {
            if self.entries[k].0 == key {
                proof {
                    lemma_find_at(self.spec_entries(), key, k as int);
                }
                return Some(self.entries[k].1);
            }
            k = k + 1;
        }
        proof {
            lemma_find_none(self.spec_entries(), key);
        }
        None
    }

    /// Stores `value` under `key`, replacing any earlier value for the
    /// same key and leaving every other key's value as it was.
    pub fn insert(&mut self, key: u64, value: V)
        requires
            old(self).wf(),
        ensures
            final(self).wf(),
            find_value(final(self).spec_entries(), key) == Some(value),
            has_key(final(self).spec_entries(), key),
            forall|k2: u64|
                k2 != key ==> #[trigger] find_value(final(self).spec_entries(), k2) == find_value(
                    old(self).spec_entries(),
                    k2,
                ),
            final(self).spec_entries().len() == old(self).spec_entries().len() + (
            if has_key(old(self).spec_entries(), key) {
                0int
            } else {
                1int
            }),
    {
        let ghost s0 = self.entries@;
        let n = self.entries.len();
        let mut k: usize = 0;
        while k < n
            invariant
                k <= n,
                n == self.spec_entries().len(),
                self.wf(),
                self.spec_entries() == s0,
                old(self).spec_entries() == s0,
                forall|i: int| 0 <= i < k ==> (#[trigger] self.spec_entries()[i]).0 != key,
            decreases n - k,
        {
            if self.entries[k].0 == key {
                let slot = entry_at(&mut self.entries, k);
                *slot = (key, value);
                proof {
                    assert(self.entries@ == s0.update(k as int, (key, value)));
                    assert forall|i: int, j: int|
                        0 <= i < j < self.entries@.len() implies (#[trigger] self.entries@[i]).0
                        != (#[trigger] self.entries@[j]).0 by {
                        assert(self.entries@[i].0 == s0[i].0);
                        assert(self.entries@[j].0 == s0[j].0);
                    }
                    lemma_find_at(self.entries@, key, k as int);
                    assert forall|k2: u64| k2 != key implies #[trigger] find_value(
                        self.entries@,
                        k2,
                    ) == find_value(s0, k2) by {
                        lemma_find_update_other(s0, k as int, (key, value), k2);
                    }
                    assert(has_key(s0, key)) by {
                        assert(s0[k as int].0 == key);
                    }
                    assert(has_key(self.entries@, key)) by {
                        assert(self.entries@[k as int].0 == key);
                    }
                }
                return ;
            }
            k = k + 1;
        }
        self.entries.push((key, value));
        proof {
            assert(!has_key(s0, key)) by {
                if has_key(s0, key) {
                    let i = choose|i: int| 0 <= i < s0.len() && (#[trigger] s0[i]).0 == key;
                    assert(s0[i].0 != key);
                }
            }
            assert forall|i: int, j: int|
                0 <= i < j < self.entries@.len() implies (#[trigger] self.entries@[i]).0
                != (#[trigger] self.entries@[j]).0 by {
                if j < s0.len() {
                    assert(self.entries@[i] == s0[i]);
                    assert(self.entries@[j] == s0[j]);
                } else {
                    assert(self.entries@[i] == s0[i]);
                    assert(self.entries@[j].0 == key);
                }
            }
            lemma_find_push(s0, (key, value), key);
            assert forall|k2: u64| k2 != key implies #[trigger] find_value(self.entries@, k2)
                == find_value(s0, k2) by {
                lemma_find_push(s0, (key, value), k2);
            }
            assert(self.entries@.drop_last() =~= s0);
            assert(has_key(self.entries@, key)) by {
                assert(self.entries@[s0.len() as int].0 == key);
            }
        }
    }

    /// The value under `key`, computing and remembering it on a miss:
    /// a hit leaves the cache unchanged and never runs `compute`; a miss
    /// stores exactly what `compute` returned.
    pub fn get_or_insert_with<F: FnOnce() -> V>(&mut self, key: u64, compute: F) -> (r: V)
        requires
            old(self).wf(),
            compute.requires(()),
        ensures
            final(self).wf(),
            has_key(old(self).spec_entries(), key) ==> Some(r) == find_value(
                old(self).spec_entries(),
                key,
            ) && final(self).spec_entries() == old(self).spec_entries(),
            !has_key(old(self).spec_entries(), key) ==> compute.ensures((), r) && find_value(
                final(self).spec_entries(),
                key,
            ) == Some(r) && (forall|k2: u64|
                k2 != key ==> #[trigger] find_value(final(self).spec_entries(), k2) == find_value(
                    old(self).spec_entries(),
                    k2,
                )),
    {
        match self.get(key) {
            Some(v) => v,
            None => {
                let v = compute();
                self.insert(key, v);
                v
            },
        }
    }

    /// How many keys are stored.
    pub fn len(&self) -> (n: usize)
        ensures
            n == self.spec_entries().len(),
    {
        self.entries.len()
    }

    /// Forgets everything.
    pub fn clear(&mut self)
        ensures
            final(self).wf(),
            final(self).spec_entries() == Seq::<(u64, V)>::empty(),
    {
        self.entries.clear();
    }
}

/// A mutable borrow of one entry.
fn entry_at<V>(es: &mut Vec<(u64, V)>, i: usize) -> (e: &mut (u64, V))
    requires
        i < old(es).len(),
    ensures
        *e == old(es)@[i as int],
        final(es)@ == old(es)@.update(i as int, *final(e)),
{
    &mut es[i]
}

} // verus!
