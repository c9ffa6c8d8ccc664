//! A small string-keyed map in insertion order.
//!
//! Scene descriptors hold their settings and resources as named tables; this
//! map keeps those tables with unique keys while preserving the order in
//! which entries were added, which later fixes the order of compilation.

use vstd::prelude::*;

verus! {

/// True when no two pairs in `s` share a key.
pub open spec fn keys_unique<T>(s: Seq<(String, T)>) -> bool {
    forall|i: int, j: int|
        0 <= i < s.len() && 0 <= j < s.len() && i != j ==> s[i].0@ != s[j].0@
}

/// The value stored under key `k` in `s`, searching from the front.
pub open spec fn seq_get<T>(s: Seq<(String, T)>, k: Seq<char>) -> Option<T>
    decreases s.len(),
{
    if s.len() == 0 {
        None
    } else if s[0].0@ == k {
        Some(s[0].1)
    } else {
        seq_get(s.drop_first(), k)
    }
}

/// `s` with the value under `key` replaced by `v` (first match), the stored
/// key string replaced along with it.
pub open spec fn seq_set<T>(s: Seq<(String, T)>, key: String, v: T) -> Seq<(String, T)>
    decreases s.len(),
{
    if s.len() == 0 {
        s
    } else if s[0].0@ == key@ {
        seq![(key, v)] + s.drop_first()
    } else {
        seq![s[0]] + seq_set(s.drop_first(), key, v)
    }
}

/// A map from string keys to values, backed by a vector of pairs with unique
/// keys, iterated in insertion order.
#[derive(Debug)]
pub struct DeserializableMap<T> {
    entries: Vec<(String, T)>,
}

impl<T> View for DeserializableMap<T> {
    type V = Map<Seq<char>, T>;

    open spec fn view(&self) -> Map<Seq<char>, T> {
        Map::new(|k: Seq<char>| seq_get(self.pairs(), k) is Some, |k: Seq<char>| seq_get(self.pairs(), k)->Some_0)
    }
}

impl<T> DeserializableMap<T> {
    /// The stored pairs, in insertion order.
    pub closed spec fn pairs(&self) -> Seq<(String, T)> {
        self.entries@
    }

    /// The map's internal shape: keys never repeat.
    pub open spec fn wf(&self) -> bool {
        keys_unique(self.pairs())
    }

    pub fn empty() -> (r: DeserializableMap<T>)
        ensures
            r.wf(),
            r.pairs() == Seq::<(String, T)>::empty(),
            r@ == Map::<Seq<char>, T>::empty(),
    {
        let r = DeserializableMap { entries: Vec::new() };
        proof {
            assert(r@ =~= Map::<Seq<char>, T>::empty());
        }
        r
    }

    pub fn get(&self, key: &String) -> (r: Option<&T>)
        ensures
            match r {
                Some(v) => self@.contains_key(key@) && *v == self@[key@],
                None => !self@.contains_key(key@),
            },
    {
        let n = self.entries.len();
        let mut i: usize = 0;
        proof {
            assert(self.pairs().skip(0) =~= self.pairs());
        }
        while i < n
            invariant
                n == self.pairs().len(),
                i <= n,
                seq_get(self.pairs(), key@) == seq_get(self.pairs().skip(i as int), key@),
            decreases n - i,
        {
            proof {
                assert(self.pairs().skip(i as int)[0] == self.pairs()[i as int]);
            }
            if self.entries[i].0.eq(key) {
                proof {
                    reveal_with_fuel(seq_get, 2);
                }
                return Some(&self.entries[i].1);
            }
            proof {
                assert(self.pairs().skip(i as int).drop_first() =~= self.pairs().skip(
                    i + 1,
                ));
                reveal_with_fuel(seq_get, 2);
            }
            i = i + 1;
        }
        proof {
            assert(self.pairs().skip(n as int) =~= Seq::<(String, T)>::empty());
        }
        None
    }

    pub fn contains_key(&self, key: &String) -> (r: bool)
        ensures
            r == self@.contains_key(key@),
    {
        self.get(key).is_some()
    }

    /// The pairs themselves, for iteration in insertion order.
    pub fn iter(&self) -> (r: &Vec<(String, T)>)
        ensures
            r@ == self.pairs(),
    {
        &self.entries
    }

    pub fn len(&self) -> (n: usize)
        ensures
            n == self.pairs().len(),
    {
        self.entries.len()
    }

    /// Overwrites the value stored under `key`, which must be present; the
    /// stored key string and the entry order stay as they are.
    pub fn update_value(&mut self, key: &String, value: T)
        requires
            old(self).wf(),
            old(self)@.contains_key(key@),
        ensures
            final(self).wf(),
            final(self)@ == old(self)@.insert(key@, value),
            final(self).pairs().len() == old(self).pairs().len(),
            forall|j: int|
                0 <= j < old(self).pairs().len() ==> (#[trigger] final(self).pairs()[j]).0
                    == old(self).pairs()[j].0,
            forall|j: int|
                0 <= j < old(self).pairs().len() && old(self).pairs()[j].0@ != key@
                    ==> (#[trigger] final(self).pairs()[j]).1 == old(self).pairs()[j].1,
            forall|j: int|
                0 <= j < old(self).pairs().len() && old(self).pairs()[j].0@ == key@
                    ==> (#[trigger] final(self).pairs()[j]).1 == value,
    {
        let n = self.entries.len();
        let mut i: usize = 0;
        proof {
            assert(seq_get(self.pairs(), key@) is Some);
            lemma_get_found_index(self.pairs(), key@);
        }
        while i < n
            invariant
                old(self).wf(),
                *self == *old(self),
                n == self.pairs().len(),
                i <= n,
                exists|j: int| i <= j < n && (#[trigger] self.pairs()[j]).0@ == key@,
            decreases n - i,
        {
            let k_matches = self.entries[i].0.eq(key);
            if k_matches {
                let ghost old_pairs = self.pairs();
                let kept = self.entries[i].0.clone();
                self.entries[i] = (kept, value);
                proof {
                    assert(self.pairs() =~= old_pairs.update(
                        i as int,
                        (old_pairs[i as int].0, value),
                    ));
                    lemma_unique_update(old_pairs, i as int, old_pairs[i as int].0, value);
                    lemma_get_update(old_pairs, i as int, old_pairs[i as int].0, value);
                    assert(self@ =~= old(self)@.insert(key@, value));
                    assert forall|j: int|
                        0 <= j < old_pairs.len() && old_pairs[j].0@ == key@ implies (
                    #[trigger] self.pairs()[j]).1 == value by {
                        assert(j == i as int);
                    }
                }
                return ;
            }
            proof {
                let ghost j = choose|j: int|
                    i <= j < n && (#[trigger] self.pairs()[j]).0@ == key@;
                assert(j != i as int);
            }
            i = i + 1;
        }
        proof {
            assert(false);
        }
    }

    /// Adds `value` under `key`, replacing any value already stored there.
    pub fn insert(&mut self, key: String, value: T)
        requires
            old(self).wf(),
        ensures
            final(self).wf(),
            final(self)@ == old(self)@.insert(key@, value),
            old(self)@.contains_key(key@) ==> final(self).pairs() == seq_set(
                old(self).pairs(),
                key,
                value,
            ),
            !old(self)@.contains_key(key@) ==> final(self).pairs() == old(self).pairs().push(
                (key, value),
            ),
    {
        let n = self.entries.len();
        let mut i: usize = 0;
        while i < n
            invariant
                old(self).wf(),
                *self == *old(self),
                n == self.pairs().len(),
                i <= n,
                forall|j: int| 0 <= j < i ==> self.pairs()[j].0@ != key@,
            decreases n - i,
        {
            if self.entries[i].0.eq(&key) {
                let ghost old_pairs = self.pairs();
                self.entries[i] = (key, value);
                proof {
                    lemma_seq_set_at(old_pairs, i as int, key, value);
                    lemma_unique_update(old_pairs, i as int, key, value);
                    lemma_get_update(old_pairs, i as int, key, value);
                    assert(seq_get(old_pairs, key@) is Some) by {
                        lemma_get_present(old_pairs, i as int);
                    }
                    assert(self@ =~= old(self)@.insert(key@, value));
                }
                return ;
            }
            i = i + 1;
        }
        let ghost old_pairs = self.pairs();
        self.entries.push((key, value));
        proof {
            assert(seq_get(old_pairs, key@) is None) by {
                lemma_get_none(old_pairs, key@);
            }
            lemma_unique_push(old_pairs, key, value);
            lemma_get_push(old_pairs, key, value);
            assert(self@ =~= old(self)@.insert(key@, value));
        }
    }
}

/// A key that `seq_get` finds is stored at some index.
pub proof fn lemma_get_found_index<T>(s: Seq<(String, T)>, k: Seq<char>)
    requires
        seq_get(s, k) is Some,
    ensures
        exists|j: int| 0 <= j < s.len() && (#[trigger] s[j]).0@ == k,
    decreases s.len(),
{
    if s.len() > 0 {
        if s[0].0@ == k {
            assert(s[0].0@ == k);
        } else {
            lemma_get_found_index(s.drop_first(), k);
            let j = choose|j: int|
                0 <= j < s.drop_first().len() && (#[trigger] s.drop_first()[j]).0@ == k;
            assert(s[j + 1].0@ == k);
        }
    }
}

/// A key found nowhere in `s` is absent from `seq_get`'s answer.
proof fn lemma_get_none<T>(s: Seq<(String, T)>, k: Seq<char>)
    requires
        forall|j: int| 0 <= j < s.len() ==> s[j].0@ != k,
    ensures
        seq_get(s, k) is None,
    decreases s.len(),
{
    if s.len() > 0 {
        lemma_get_none(s.drop_first(), k);
    }
}

/// A key stored at some index is found by `seq_get`.
pub proof fn lemma_get_present<T>(s: Seq<(String, T)>, i: int)
    requires
        keys_unique(s),
        0 <= i < s.len(),
    ensures
        seq_get(s, s[i].0@) == Some(s[i].1),
    decreases s.len(),
{
    if i > 0 {
        assert(s.drop_first()[i - 1] == s[i]);
        lemma_get_present(s.drop_first(), i - 1);
    }
}

/// Replacing the pair at the first index holding `key` is what `seq_set` does.
proof fn lemma_seq_set_at<T>(s: Seq<(String, T)>, i: int, key: String, v: T)
    requires
        keys_unique(s),
        0 <= i < s.len(),
        s[i].0@ == key@,
    ensures
        seq_set(s, key, v) == s.update(i, (key, v)),
    decreases s.len(),
{
    if i == 0 {
        assert(seq![(key, v)] + s.drop_first() =~= s.update(0, (key, v)));
    } else {
        lemma_seq_set_at(s.drop_first(), i - 1, key, v);
        assert(seq![s[0]] + s.drop_first().update(i - 1, (key, v)) =~= s.update(i, (key, v)));
    }
}

proof fn lemma_unique_update<T>(s: Seq<(String, T)>, i: int, key: String, v: T)
    requires
        keys_unique(s),
        0 <= i < s.len(),
        s[i].0@ == key@,
    ensures
        keys_unique(s.update(i, (key, v))),
{
    let t = s.update(i, (key, v));
    assert forall|a: int, b: int|
        0 <= a < t.len() && 0 <= b < t.len() && a != b implies t[a].0@ != t[b].0@ by {
        assert(a == i || t[a] == s[a]);
        assert(b == i || t[b] == s[b]);
    }
}

proof fn lemma_unique_push<T>(s: Seq<(String, T)>, key: String, v: T)
    requires
        keys_unique(s),
        forall|j: int| 0 <= j < s.len() ==> s[j].0@ != key@,
    ensures
        keys_unique(s.push((key, v))),
{
    let t = s.push((key, v));
    assert forall|a: int, b: int|
        0 <= a < t.len() && 0 <= b < t.len() && a != b implies t[a].0@ != t[b].0@ by {
        assert(a == s.len() || t[a] == s[a]);
        assert(b == s.len() || t[b] == s[b]);
    }
}

/// After an in-place update at the key's index, lookups answer as on a map
/// updated at that key.
proof fn lemma_get_update<T>(s: Seq<(String, T)>, i: int, key: String, v: T)
    requires
        keys_unique(s),
        0 <= i < s.len(),
        s[i].0@ == key@,
    ensures
        forall|k: Seq<char>|
            #[trigger] seq_get(s.update(i, (key, v)), k) == if k == key@ {
                Some(v)
            } else {
                seq_get(s, k)
            },
    decreases s.len(),
{
    let t = s.update(i, (key, v));
    assert forall|k: Seq<char>|
        #[trigger] seq_get(t, k) == (if k == key@ {
            Some(v)
        } else {
            seq_get(s, k)
        }) by {
        if i == 0 {
            assert(t[0] == (key, v));
            assert(t.drop_first() =~= s.drop_first());
        } else {
            assert(keys_unique(s.drop_first())) by {
                assert(forall|a: int|
                    0 <= a < s.drop_first().len() ==> s.drop_first()[a] == s[a + 1]);
            }
            assert(s.drop_first()[i - 1] == s[i]);
            lemma_get_update(s.drop_first(), i - 1, key, v);
            assert(t[0] == s[0]);
            assert(t.drop_first() =~= s.drop_first().update(i - 1, (key, v)));
            assert(seq_get(t.drop_first(), k) == (if k == key@ {
                Some(v)
            } else {
                seq_get(s.drop_first(), k)
            }));
            assert(s[0].0@ != key@);
        }
    }
}

/// After a push of a fresh key, lookups answer as on a map extended at that key.
proof fn lemma_get_push<T>(s: Seq<(String, T)>, key: String, v: T)
    requires
        forall|j: int| 0 <= j < s.len() ==> s[j].0@ != key@,
    ensures
        forall|k: Seq<char>|
            #[trigger] seq_get(s.push((key, v)), k) == if k == key@ {
                Some(v)
            } else {
                seq_get(s, k)
            },
    decreases s.len(),
{
    let t = s.push((key, v));
    assert forall|k: Seq<char>|
        #[trigger] seq_get(t, k) == (if k == key@ {
            Some(v)
        } else {
            seq_get(s, k)
        }) by {
        if s.len() == 0 {
            assert(t[0] == (key, v));
            assert(t.drop_first() =~= Seq::<(String, T)>::empty());
        } else {
            lemma_get_push(s.drop_first(), key, v);
            assert(t[0] == s[0]);
            assert(t.drop_first() =~= s.drop_first().push((key, v)));
            assert(seq_get(t.drop_first(), k) == (if k == key@ {
                Some(v)
            } else {
                seq_get(s.drop_first(), k)
            }));
        }
    }
}

} // verus!
