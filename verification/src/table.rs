//! A small keyed table: string keys, copyable values, no key twice. It holds
//! the per-source state of the login back-off and the revoked token ids.
use vstd::prelude::*;
use crate::text::eq_chars;

verus! {

pub struct Table<V: Copy> {
    entries: Vec<(Vec<char>, V)>,
}

/// The keys of the entries, in table order.
pub open spec fn keys_of<V>(s: Seq<(Vec<char>, V)>) -> Seq<Seq<char>> {
    s.map_values(|e: (Vec<char>, V)| e.0@)
}

/// Position of key `k` among the entries.
pub open spec fn index_of_key<V>(s: Seq<(Vec<char>, V)>, k: Seq<char>) -> int {
    choose|i: int| 0 <= i < s.len() && s[i].0@ == k
}

/// The map that a sequence of entries with distinct keys stands for.
pub open spec fn map_of<V>(s: Seq<(Vec<char>, V)>) -> Map<Seq<char>, V> {
    Map::new(
        |k: Seq<char>| keys_of(s).contains(k),
        |k: Seq<char>| s[index_of_key(s, k)].1,
    )
}

proof fn lemma_map_of_at<V>(s: Seq<(Vec<char>, V)>, i: int)
    requires
        keys_of(s).no_duplicates(),
        0 <= i < s.len(),
    ensures
        map_of(s).contains_key(s[i].0@),
        map_of(s)[s[i].0@] == s[i].1,
{
    let k = s[i].0@;
    assert(keys_of(s)[i] == k);
    let j = index_of_key(s, k);
    assert(keys_of(s)[j] == k);
    assert(j == i);
}

proof fn lemma_contains_key<V>(s: Seq<(Vec<char>, V)>, k: Seq<char>)
    requires
        map_of(s).contains_key(k),
    ensures
        exists|i: int| 0 <= i < s.len() && s[i].0@ == k,
{
    let i = choose|i: int| 0 <= i < keys_of(s).len() && keys_of(s)[i] == k;
    assert(s[i].0@ == k);
}

proof fn lemma_map_of_push<V>(s: Seq<(Vec<char>, V)>, e: (Vec<char>, V))
    requires
        keys_of(s).no_duplicates(),
        !keys_of(s).contains(e.0@),
    ensures
        keys_of(s.push(e)).no_duplicates(),
        map_of(s.push(e)) =~= map_of(s).insert(e.0@, e.1),
{
    let t = s.push(e);
    assert(keys_of(t) =~= keys_of(s).push(e.0@));
    assert forall|k: Seq<char>| #[trigger] map_of(t).contains_key(k) implies map_of(s).insert(e.0@, e.1).contains_key(k)
        && map_of(t)[k] == map_of(s).insert(e.0@, e.1)[k] by {
        lemma_contains_key(t, k);
        let i = choose|i: int| 0 <= i < t.len() && t[i].0@ == k;
        lemma_map_of_at(t, i);
        if i < s.len() {
            lemma_map_of_at(s, i);
            assert(t[i] == s[i]);
            assert(keys_of(s)[i] == k);
            assert(k != e.0@);
        } else {
            assert(t[i] == e);
        }
    }
    assert forall|k: Seq<char>| #[trigger] map_of(s).insert(e.0@, e.1).contains_key(k) implies map_of(t).contains_key(k) by {
        if k != e.0@ {
            lemma_contains_key(s, k);
            let i = choose|i: int| 0 <= i < s.len() && s[i].0@ == k;
            lemma_map_of_at(t, i);
        } else {
            lemma_map_of_at(t, s.len() as int);
        }
    }
}

proof fn lemma_map_of_update<V>(s: Seq<(Vec<char>, V)>, i: int, e: (Vec<char>, V))
    requires
        keys_of(s).no_duplicates(),
        0 <= i < s.len(),
        e.0@ == s[i].0@,
    ensures
        keys_of(s.update(i, e)).no_duplicates(),
        map_of(s.update(i, e)) =~= map_of(s).insert(e.0@, e.1),
{
    let t = s.update(i, e);
    assert(keys_of(t) =~= keys_of(s));
    assert forall|k: Seq<char>| #[trigger] map_of(t).contains_key(k) implies map_of(s).insert(e.0@, e.1).contains_key(k)
        && map_of(t)[k] == map_of(s).insert(e.0@, e.1)[k] by {
        lemma_contains_key(t, k);
        let j = choose|j: int| 0 <= j < t.len() && t[j].0@ == k;
        lemma_map_of_at(t, j);
        lemma_map_of_at(s, j);
        if j != i {
            assert(t[j] == s[j]);
            assert(keys_of(s)[j] != keys_of(s)[i]);
        }
    }
    assert forall|k: Seq<char>| #[trigger] map_of(s).insert(e.0@, e.1).contains_key(k) implies map_of(t).contains_key(k) by {
        if k != e.0@ {
            lemma_contains_key(s, k);
            let j = choose|j: int| 0 <= j < s.len() && s[j].0@ == k;
            lemma_map_of_at(t, j);
        } else {
            lemma_map_of_at(t, i);
        }
    }
}

proof fn lemma_map_of_remove<V>(s: Seq<(Vec<char>, V)>, i: int)
    requires
        keys_of(s).no_duplicates(),
        0 <= i < s.len(),
    ensures
        keys_of(s.remove(i)).no_duplicates(),
        map_of(s.remove(i)) =~= map_of(s).remove(s[i].0@),
{
    let t = s.remove(i);
    let k0 = s[i].0@;
    assert(keys_of(t) =~= keys_of(s).remove(i));
    assert forall|a: int, b: int| 0 <= a < keys_of(t).len() && 0 <= b < keys_of(t).len() && a != b
        implies keys_of(t)[a] != keys_of(t)[b] by {
        let a2 = if a < i { a } else { a + 1 };
        let b2 = if b < i { b } else { b + 1 };
        assert(keys_of(t)[a] == keys_of(s)[a2]);
        assert(keys_of(t)[b] == keys_of(s)[b2]);
    }
    assert forall|k: Seq<char>| #[trigger] map_of(t).contains_key(k) implies map_of(s).remove(k0).contains_key(k)
        && map_of(t)[k] == map_of(s).remove(k0)[k] by {
        lemma_contains_key(t, k);
        let j = choose|j: int| 0 <= j < t.len() && t[j].0@ == k;
        let j2 = if j < i { j } else { j + 1 };
        assert(t[j] == s[j2]);
        lemma_map_of_at(t, j);
        lemma_map_of_at(s, j2);
        assert(keys_of(s)[j2] == k);
        assert(keys_of(s)[i] == k0);
    }
    assert forall|k: Seq<char>| #[trigger] map_of(s).remove(k0).contains_key(k) implies map_of(t).contains_key(k) by {
        lemma_contains_key(s, k);
        let j = choose|j: int| 0 <= j < s.len() && s[j].0@ == k;
        assert(j != i);
        let j2 = if j < i { j } else { j - 1 };
        assert(t[j2] == s[j]);
        lemma_map_of_at(t, j2);
    }
}

proof fn lemma_map_of_len<V>(s: Seq<(Vec<char>, V)>)
    requires
        keys_of(s).no_duplicates(),
    ensures
        map_of(s).len() == s.len(),
{
    assert(map_of(s).dom() =~= keys_of(s).to_set());
    keys_of(s).unique_seq_to_set();
}

impl<V: Copy> Table<V> {
    #[verifier::type_invariant]
    closed spec fn wf(self) -> bool {
        keys_of(self.entries@).no_duplicates()
    }

    /// The key/value pairs held.
    pub closed spec fn view(&self) -> Map<Seq<char>, V> {
        map_of(self.entries@)
    }

    /// A table holds finitely many keys.
    pub proof fn lemma_finite(&self)
        ensures
            self@.dom().finite(),
    {
        assert(map_of(self.entries@).dom() =~= keys_of(self.entries@).to_set());
        vstd::seq_lib::seq_to_set_is_finite(keys_of(self.entries@));
    }

    pub fn new() -> (t: Self)
        ensures
            t@ == Map::<Seq<char>, V>::empty(),
    {
        let t = Table { entries: Vec::new() };
        assert(map_of(t.entries@) =~= Map::<Seq<char>, V>::empty());
        t
    }

    /// Number of keys held.
    pub fn len(&self) -> (n: usize)
        ensures
            n == self@.len(),
    {
        proof {
            use_type_invariant(self);
            lemma_map_of_len(self.entries@);
        }
        self.entries.len()
    }

    fn find(&self, k: &[char]) -> (r: Option<usize>)
        ensures
            r matches Some(i) ==> i < self.entries@.len() && self.entries@[i as int].0@ == k@,
            r is None ==> !self@.contains_key(k@),
    {
        let mut i: usize = 0;
        while i < self.entries.len()
            invariant
                i <= self.entries@.len(),
                forall|j: int| 0 <= j < i ==> self.entries@[j].0@ != k@,
            decreases self.entries@.len() - i,
        {
            if eq_chars(&self.entries[i].0, k) {
                return Some(i);
            }
            i = i + 1;
        }
        proof {
            if self@.contains_key(k@) {
                lemma_contains_key(self.entries@, k@);
            }
        }
        None
    }

    /// The value held for `k`.
    pub fn get(&self, k: &[char]) -> (r: Option<V>)
        ensures
            r matches Some(v) ==> self@.contains_key(k@) && self@[k@] == v,
            r is None ==> !self@.contains_key(k@),
    {
        proof {
            use_type_invariant(self);
        }
        match self.find(k) {
            Some(i) => {
                proof {
                    lemma_map_of_at(self.entries@, i as int);
                }
                Some(self.entries[i].1)
            },
            None => None,
        }
    }

    /// Sets the value for `k`, adding the key when it is new.
    pub fn insert(&mut self, k: &[char], v: V)
        ensures
            final(self)@ == old(self)@.insert(k@, v),
    {
        proof {
            use_type_invariant(&*self);
        }
        let key: Vec<char> = vstd::slice::slice_to_vec(k);
        assert(key@ == k@);
        match self.find(k) {
            Some(i) => {
                proof {
                    lemma_map_of_update(self.entries@, i as int, (key, v));
                }
                let mut es: Vec<(Vec<char>, V)> = Vec::new();
                std::mem::swap(&mut es, &mut self.entries);
                es.set(i, (key, v));
                self.entries = es;
            },
            None => {
                proof {
                    if keys_of(self.entries@).contains(k@) {
                        let j = choose|j: int| 0 <= j < keys_of(self.entries@).len() && keys_of(self.entries@)[j] == k@;
                        lemma_map_of_at(self.entries@, j);
                    }
                    lemma_map_of_push(self.entries@, (key, v));
                }
                let mut es: Vec<(Vec<char>, V)> = Vec::new();
                std::mem::swap(&mut es, &mut self.entries);
                es.push((key, v));
                self.entries = es;
            },
        }
    }

    /// Drops the key `k`, if held.
    pub fn remove(&mut self, k: &[char])
        ensures
            final(self)@ == old(self)@.remove(k@),
    {
        proof {
            use_type_invariant(&*self);
        }
        match self.find(k) {
            Some(i) => {
                proof {
                    lemma_map_of_remove(self.entries@, i as int);
                }
                let mut es: Vec<(Vec<char>, V)> = Vec::new();
                std::mem::swap(&mut es, &mut self.entries);
                es.remove(i);
                self.entries = es;
            },
            None => {
                assert(old(self)@.remove(k@) =~= old(self)@);
            },
        }
    }

    /// Drops every key.
    pub fn clear(&mut self)
        ensures
            final(self)@ == Map::<Seq<char>, V>::empty(),
    {
        self.entries = Vec::new();
        assert(map_of(self.entries@) =~= Map::<Seq<char>, V>::empty());
    }

    /// Keeps exactly the keys whose value satisfies `keep`.
    pub fn retain<F: Fn(V) -> bool>(&mut self, keep: F, Ghost(p): Ghost<spec_fn(V) -> bool>)
        requires
            forall|v: V| call_requires(keep, (v,)),
            forall|v: V, b: bool| call_ensures(keep, (v,), b) ==> b == p(v),
        ensures
            final(self)@ == old(self)@.restrict(Set::new(|k: Seq<char>| old(self)@.contains_key(k) && p(old(self)@[k]))),
    {
        proof {
            use_type_invariant(&*self);
        }
        let ghost src = self.entries@;
        let mut kept: Vec<(Vec<char>, V)> = Vec::new();
        let mut i: usize = 0;
        while i < self.entries.len()
            invariant
                i <= self.entries@.len(),
                self.entries@ == src,
                keys_of(src).no_duplicates(),
                keys_of(kept@).no_duplicates(),
                forall|v: V| call_requires(keep, (v,)),
                forall|v: V, b: bool| call_ensures(keep, (v,), b) ==> b == p(v),
                forall|k: Seq<char>| #[trigger] keys_of(kept@).contains(k) ==> exists|j: int| 0 <= j < i && src[j].0@ == k,
                map_of(kept@) =~= map_of(src).restrict(Set::new(|k: Seq<char>| map_of(src).contains_key(k) && p(map_of(src)[k])
                    && exists|j: int| 0 <= j < i && src[j].0@ == k)),
            decreases self.entries@.len() - i,
        {
            let ghost before = kept@;
            proof {
                lemma_map_of_at(src, i as int);
            }
            if keep(self.entries[i].1) {
                let e = (self.entries[i].0.clone(), self.entries[i].1);
                proof {
                    if keys_of(before).contains(src[i as int].0@) {
                        let j = choose|j: int| 0 <= j < i && src[j].0@ == src[i as int].0@;
                        assert(keys_of(src)[j] == keys_of(src)[i as int]);
                    }
                    lemma_map_of_push(before, e);
                }
                kept.push(e);
                assert(keys_of(kept@) =~= keys_of(before).push(src[i as int].0@));
                assert forall|k: Seq<char>| #[trigger] keys_of(kept@).contains(k) implies exists|j: int| 0 <= j < i + 1 && src[j].0@ == k by {
                    if k != src[i as int].0@ {
                        assert(keys_of(before).contains(k));
                    }
                }
            }
            proof {
                assert forall|k: Seq<char>| map_of(src).contains_key(k) && p(map_of(src)[k]) && (exists|j: int| 0 <= j < i + 1 && src[j].0@ == k)
                    && !(exists|j: int| 0 <= j < i && src[j].0@ == k) implies k == src[i as int].0@ by {
                }
            }
            i = i + 1;
        }
        proof {
            assert forall|k: Seq<char>| map_of(src).contains_key(k) implies (exists|j: int| 0 <= j < src.len() && src[j].0@ == k) by {
                lemma_contains_key(src, k);
            }
        }
        assert(map_of(kept@) =~= old(self)@.restrict(Set::new(|k: Seq<char>| old(self)@.contains_key(k) && p(old(self)@[k]))));
        self.entries = kept;
    }
}

} // verus!
