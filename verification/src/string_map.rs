//! A small map from text keys to values that remembers the order in which
//! its keys first arrived.

use vstd::prelude::*;

verus! {

/// No key occurs twice among `s`.
pub open spec fn distinct_keys<V>(s: Seq<(Seq<char>, V)>) -> bool {
    forall|i: int, j: int| 0 <= i < j < s.len() ==> (#[trigger] s[i]).0 != (#[trigger] s[j]).0
}

/// `k` is a key of `s`.
pub open spec fn has_key<V>(s: Seq<(Seq<char>, V)>, k: Seq<char>) -> bool {
    exists|i: int| 0 <= i < s.len() && (#[trigger] s[i]).0 == k
}

/// The place of key `k` in `s`; meaningful when `has_key(s, k)`.
pub open spec fn key_index<V>(s: Seq<(Seq<char>, V)>, k: Seq<char>) -> int {
    choose|i: int| 0 <= i < s.len() && (#[trigger] s[i]).0 == k
}

/// What `s` holds after `k` is bound to `v`: the binding replaces the one
/// `k` had, in place, or is added at the end.
pub open spec fn bind<V>(s: Seq<(Seq<char>, V)>, k: Seq<char>, v: V) -> Seq<(Seq<char>, V)> {
    if has_key(s, k) {
        s.update(key_index(s, k), (k, v))
    } else {
        s.push((k, v))
    }
}

/// What `s` holds after each entry of `more` is bound in turn.
pub open spec fn bind_all<V>(s: Seq<(Seq<char>, V)>, more: Seq<(Seq<char>, V)>) -> Seq<
    (Seq<char>, V),
>
    decreases more.len(),
{
    if more.len() == 0 {
        s
    } else {
        bind(bind_all(s, more.drop_last()), more.last().0, more.last().1)
    }
}

/// Binding a key keeps the keys distinct.
pub proof fn lemma_bind_distinct<V>(s: Seq<(Seq<char>, V)>, k: Seq<char>, v: V)
    requires
        distinct_keys(s),
    ensures
        distinct_keys(bind(s, k, v)),
        has_key(bind(s, k, v), k),
        bind(s, k, v)[key_index(bind(s, k, v), k)].1 == v,
        forall|o: Seq<char>| o != k ==> (has_key(bind(s, k, v), o) <==> has_key(s, o)),
{
    let t = bind(s, k, v);
    if has_key(s, k) {
        let i = key_index(s, k);
        assert(t[i].0 == k);
        assert forall|o: Seq<char>| o != k implies (has_key(t, o) <==> has_key(s, o)) by {
            if has_key(s, o) {
                let j = key_index(s, o);
                assert(t[j].0 == o);
            }
            if has_key(t, o) {
                let j = key_index(t, o);
                assert(s[j].0 == o);
            }
        }
    } else {
        assert(t[s.len() as int].0 == k);
        assert forall|o: Seq<char>| o != k implies (has_key(t, o) <==> has_key(s, o)) by {
            if has_key(s, o) {
                let j = key_index(s, o);
                assert(t[j].0 == o);
            }
            if has_key(t, o) {
                let j = key_index(t, o);
                assert(s[j].0 == o);
            }
        }
    }
    let n = key_index(t, k);
    assert(t[n].0 == k);
}

/// The entries of `s` with each value replaced by its view.
pub open spec fn deep_pairs<V: DeepView>(s: Seq<(Seq<char>, V)>) -> Seq<(Seq<char>, V::V)> {
    Seq::new(s.len(), |i: int| (s[i].0, s[i].1.deep_view()))
}

/// Binding and viewing commute: viewing the values after a binding gives the
/// binding of the viewed value among the viewed values.
pub proof fn lemma_deep_bind<V: DeepView>(s: Seq<(Seq<char>, V)>, k: Seq<char>, v: V)
    requires
        distinct_keys(s),
    ensures
        deep_pairs(bind(s, k, v)) == bind(deep_pairs(s), k, v.deep_view()),
        distinct_keys(deep_pairs(s)),
{
    let d = deep_pairs(s);
    assert forall|i: int, j: int| 0 <= i < j < d.len() implies (#[trigger] d[i]).0 != (
    #[trigger] d[j]).0 by {
        assert(s[i].0 != s[j].0);
    }
    if has_key(s, k) {
        let i = key_index(s, k);
        assert(d[i].0 == k);
        let j = key_index(d, k);
        assert(s[j].0 == k);
        assert(i == j);
        assert(deep_pairs(bind(s, k, v)) =~= bind(d, k, v.deep_view()));
    } else {
        if has_key(d, k) {
            let j = key_index(d, k);
            assert(s[j].0 == k);
        }
        assert(deep_pairs(bind(s, k, v)) =~= bind(d, k, v.deep_view()));
    }
}

/// Viewing the values changes neither the keys nor their places.
pub proof fn lemma_deep_keys<V: DeepView>(s: Seq<(Seq<char>, V)>, k: Seq<char>)
    requires
        distinct_keys(s),
    ensures
        distinct_keys(deep_pairs(s)),
        has_key(deep_pairs(s), k) == has_key(s, k),
        has_key(s, k) ==> key_index(deep_pairs(s), k) == key_index(s, k),
{
    let d = deep_pairs(s);
    assert forall|i: int, j: int| 0 <= i < j < d.len() implies (#[trigger] d[i]).0 != (
    #[trigger] d[j]).0 by {
        assert(s[i].0 != s[j].0);
    }
    if has_key(s, k) {
        let i = key_index(s, k);
        assert(d[i].0 == k);
        let j = key_index(d, k);
        assert(s[j].0 == k);
    }
    if has_key(d, k) {
        let j = key_index(d, k);
        assert(s[j].0 == k);
    }
}

/// A map keyed by text. Keys are compared by their characters; a key is held
/// once, and the entries stay in the order in which their keys first arrived.
#[derive(Debug, PartialEq, Eq)]
pub struct StringMap<V> {
    entries: Vec<(String, V)>,
}

impl<V: DeepView> DeepView for StringMap<V> {
    type V = Seq<(Seq<char>, V::V)>;

    open spec fn deep_view(&self) -> Seq<(Seq<char>, V::V)> {
        deep_pairs(self@)
    }
}

impl<V: Clone> Clone for StringMap<V> {
    fn clone(&self) -> (r: Self)
        ensures
            r@.len() == self@.len(),
            forall|i: int|
                0 <= i < self@.len() ==> (#[trigger] r@[i]).0 == self@[i].0 && cloned::<V>(
                    self@[i].1,
                    r@[i].1,
                ),
    {
        proof {
            use_type_invariant(self);
        }
        let mut entries: Vec<(String, V)> = Vec::new();
        let n: usize = self.entries.len();
        let mut i: usize = 0;
        while i < n
            invariant
                n == self.entries@.len(),
                i <= n,
                entries@.len() == i,
                forall|j: int|
                    0 <= j < i ==> (#[trigger] entries@[j]).0@ == self.entries@[j].0@ && cloned::<V>(
                        self.entries@[j].1,
                        entries@[j].1,
                    ),
            decreases n - i,
        {
            let key = self.entries[i].0.clone();
            let value = self.entries[i].1.clone();
            entries.push((key, value));
            i += 1;
        }
        proof {
            let pairs = entries@.map_values(|e: (String, V)| (e.0@, e.1));
            assert forall|a: int, b: int| 0 <= a < b < pairs.len() implies (#[trigger] pairs[a]).0
                != (#[trigger] pairs[b]).0 by {
                assert(self@[a].0 == entries@[a].0@);
                assert(self@[b].0 == entries@[b].0@);
            }
        }
        let r = StringMap { entries };
        r
    }
}

impl<V> View for StringMap<V> {
    type V = Seq<(Seq<char>, V)>;

    closed spec fn view(&self) -> Seq<(Seq<char>, V)> {
        self.entries@.map_values(|e: (String, V)| (e.0@, e.1))
    }
}

impl<V> StringMap<V> {
    /// What every map keeps: no key occurs twice.
    #[verifier::type_invariant]
    pub open spec fn inv(&self) -> bool {
        distinct_keys(self@)
    }

    /// An empty map.
    pub fn new() -> (r: Self)
        ensures
            r@ == Seq::<(Seq<char>, V)>::empty(),
    {
        let r = StringMap { entries: Vec::new() };
        assert(r@ =~= Seq::<(Seq<char>, V)>::empty());
        r
    }

    /// The number of entries.
    pub fn len(&self) -> (n: usize)
        ensures
            n == self@.len(),
            distinct_keys(self@),
    {
        proof {
            use_type_invariant(self);
        }
        self.entries.len()
    }

    /// The place of `key` among the entries, if it is bound.
    pub fn position(&self, key: &String) -> (r: Option<usize>)
        ensures
            distinct_keys(self@),
            r is Some <==> has_key(self@, key@),
            r matches Some(i) ==> i < self@.len() && self@[i as int].0 == key@ && i == key_index(
                self@,
                key@,
            ),
    {
        proof {
            use_type_invariant(self);
        }
        let mut i: usize = 0;
        while i < self.entries.len()
            invariant
                i <= self.entries.len(),
                distinct_keys(self@),
                forall|j: int| 0 <= j < i ==> (#[trigger] self@[j]).0 != key@,
            decreases self.entries.len() - i,
        {
            let same = self.entries[i].0 == *key;
            assert(self@[i as int].0 == self.entries@[i as int].0@);
            if same {
                return Some(i);
            }
            i += 1;
        }
        None
    }

    /// The key of the `i`-th entry.
    pub fn key_at(&self, i: usize) -> (k: &String)
        requires
            i < self@.len(),
        ensures
            k@ == self@[i as int].0,
    {
        &self.entries[i].0
    }

    /// The value of the `i`-th entry.
    pub fn value_at(&self, i: usize) -> (v: &V)
        requires
            i < self@.len(),
        ensures
            *v == self@[i as int].1,
    {
        &self.entries[i].1
    }

    /// The value bound to `key`, if any.
    pub fn get(&self, key: &String) -> (r: Option<&V>)
        ensures
            r is Some <==> has_key(self@, key@),
            r matches Some(v) ==> *v == self@[key_index(self@, key@)].1,
    {
        match self.position(key) {
            Some(i) => Some(&self.entries[i].1),
            None => None,
        }
    }

    /// Whether `key` is bound.
    pub fn contains_key(&self, key: &String) -> (r: bool)
        ensures
            r == has_key(self@, key@),
    {
        self.position(key).is_some()
    }

    /// Binds every entry of `other`, in its order.
    pub fn extend(&mut self, other: StringMap<V>)
        ensures
            final(self)@ == bind_all(old(self)@, other@),
    {
        let ghost more = other@;
        let StringMap { entries } = other;
        let mut entries = entries;
        let n: usize = entries.len();
        let mut i: usize = 0;
        assert(more.take(0) =~= Seq::empty());
        while entries.len() > 0
            invariant
                i + entries@.len() == n,
                n == more.len(),
                entries@.map_values(|e: (String, V)| (e.0@, e.1)) == more.skip(i as int),
                self@ == bind_all(old(self)@, more.take(i as int)),
            decreases entries@.len(),
        {
            let ghost before = entries@;
            let (key, value) = entries.remove(0);
            assert(entries@.map_values(|e: (String, V)| (e.0@, e.1)) =~= more.skip(i as int + 1)) by {
                assert forall|j: int| 0 <= j < entries@.len() implies (#[trigger] entries@[j]).0@
                    == more.skip(i as int + 1)[j].0 && entries@[j].1 == more.skip(i as int + 1)[j].1 by {
                    assert(entries@[j] == before[j + 1]);
                    assert(before.map_values(|e: (String, V)| (e.0@, e.1))[j + 1] == more.skip(
                        i as int,
                    )[j + 1]);
                }
            }
            assert((key@, value) == more[i as int]) by {
                assert(before.map_values(|e: (String, V)| (e.0@, e.1))[0] == more.skip(i as int)[0]);
            }
            assert(more.take(i as int + 1).drop_last() =~= more.take(i as int));
            self.insert(key, value);
            i += 1;
        }
        assert(more.take(n as int) =~= more);
    }

    /// Binds `key` to `value`, replacing the value `key` had.
    pub fn insert(&mut self, key: String, value: V)
        ensures
            final(self)@ == bind(old(self)@, key@, value),
    {
        proof {
            use_type_invariant(&*self);
            lemma_bind_distinct(self@, key@, value);
        }
        let found = self.position(&key);
        let mut entries: Vec<(String, V)> = Vec::new();
        core::mem::swap(&mut self.entries, &mut entries);
        match found {
            Some(i) => {
                entries.set(i, (key, value));
            },
            None => {
                entries.push((key, value));
            },
        }
        assert(entries@.map_values(|e: (String, V)| (e.0@, e.1)) =~= bind(old(self)@, key@, value));
        core::mem::swap(&mut self.entries, &mut entries);
    }
}

} // verus!
