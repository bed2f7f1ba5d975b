//! A map keyed by strings that is walked in the order of its keys.

use crate::text::{
    before, is_before, lemma_before_irreflexive, lemma_before_total, lemma_before_transitive, same,
};
use vstd::prelude::*;

verus! {

/// `s` lists the entries of `m`, each once, in the order of the keys.
pub open spec fn lists<T>(s: Seq<(Seq<char>, T)>, m: Map<Seq<char>, T>) -> bool {
    &&& ascending(s)
    &&& forall|i: int| 0 <= i < s.len() ==> m.contains_key((#[trigger] s[i]).0) && m[s[i].0] == s[i].1
    &&& forall|k: Seq<char>| #[trigger] m.contains_key(k) ==> exists|i: int| 0 <= i < s.len() && s[i].0 == k
}

/// The keys of `s` ascend.
pub open spec fn ascending<T>(s: Seq<(Seq<char>, T)>) -> bool {
    forall|i: int, j: int| 0 <= i < j < s.len() ==> before((#[trigger] s[i]).0, (#[trigger] s[j]).0)
}

/// The entries of a finite map in the order of their keys.
pub open spec fn ordered<T>(m: Map<Seq<char>, T>) -> Seq<(Seq<char>, T)> {
    choose|s: Seq<(Seq<char>, T)>| lists(s, m)
}

/// A map has one listing: the entries in the order of the keys.
pub proof fn lemma_ordered<T>(s: Seq<(Seq<char>, T)>, m: Map<Seq<char>, T>)
    requires
        lists(s, m),
    ensures
        ordered(m) == s,
{
    lemma_listing_unique(ordered(m), s, m);
}

proof fn lemma_listing_unique<T>(
    a: Seq<(Seq<char>, T)>,
    b: Seq<(Seq<char>, T)>,
    m: Map<Seq<char>, T>,
)
    requires
        lists(a, m),
        lists(b, m),
    ensures
        a == b,
    decreases a.len(),
{
    if a.len() == 0 {
        if b.len() > 0 {
            assert(m.contains_key(b[0].0));
        }
        assert(a =~= b);
    } else {
        assert(m.contains_key(a[0].0));
        assert(b.len() > 0);
        let x = a.last();
        let y = b.last();
        assert(x == a[a.len() - 1] && y == b[b.len() - 1]);
        assert(m.contains_key(x.0) && m.contains_key(y.0));
        let i = choose|i: int| 0 <= i < b.len() && b[i].0 == x.0;
        let j = choose|j: int| 0 <= j < a.len() && a[j].0 == y.0;
        if x.0 != y.0 {
            assert(i < b.len() - 1 && j < a.len() - 1);
            assert(before(b[i].0, b[b.len() - 1].0));
            assert(before(a[j].0, a[a.len() - 1].0));
            lemma_before_transitive(x.0, y.0, x.0);
            lemma_before_irreflexive(x.0);
        }
        let n = m.remove(x.0);
        lemma_listing_without_last(a, m);
        lemma_listing_without_last(b, m);
        lemma_listing_unique(a.drop_last(), b.drop_last(), n);
        assert(a =~= a.drop_last().push(x));
        assert(b =~= b.drop_last().push(y));
    }
}

proof fn lemma_listing_without_last<T>(s: Seq<(Seq<char>, T)>, m: Map<Seq<char>, T>)
    requires
        lists(s, m),
        s.len() > 0,
    ensures
        lists(s.drop_last(), m.remove(s.last().0)),
{
    let t = s.drop_last();
    let n = m.remove(s.last().0);
    assert(s.last() == s[s.len() - 1]);
    assert forall|i: int| 0 <= i < t.len() implies n.contains_key((#[trigger] t[i]).0) && n[t[i].0]
        == t[i].1 by {
        assert(t[i] == s[i]);
        assert(before(s[i].0, s[s.len() - 1].0));
        lemma_before_irreflexive(s[i].0);
    }
    assert forall|k: Seq<char>| #[trigger] n.contains_key(k) implies exists|i: int|
        0 <= i < t.len() && t[i].0 == k by {
        assert(m.contains_key(k));
        let i = choose|i: int| 0 <= i < s.len() && s[i].0 == k;
        assert(t[i] == s[i]);
    }
}

/// A map from strings to values, kept in the order of the keys.
#[derive(Debug)]
pub struct StrMap<V> {
    entries: Vec<(String, V)>,
}

impl<V: DeepView> View for StrMap<V> {
    type V = Map<Seq<char>, V::V>;

    closed spec fn view(&self) -> Map<Seq<char>, V::V> {
        map_of(self.entries.deep_view())
    }
}

impl<V: DeepView> DeepView for StrMap<V> {
    type V = Map<Seq<char>, V::V>;

    open spec fn deep_view(&self) -> Map<Seq<char>, V::V> {
        self@
    }
}

spec fn map_of<T>(s: Seq<(Seq<char>, T)>) -> Map<Seq<char>, T> {
    Map::new(
        |k: Seq<char>| exists|i: int| 0 <= i < s.len() && s[i].0 == k,
        |k: Seq<char>| s[choose|i: int| 0 <= i < s.len() && s[i].0 == k].1,
    )
}

proof fn lemma_map_of<T>(s: Seq<(Seq<char>, T)>)
    requires
        ascending(s),
    ensures
        lists(s, map_of(s)),
        ordered(map_of(s)) == s,
{
    let m = map_of(s);
    assert forall|i: int| 0 <= i < s.len() implies m.contains_key((#[trigger] s[i]).0) && m[s[i].0]
        == s[i].1 by {
        let k = s[i].0;
        let j = choose|j: int| 0 <= j < s.len() && s[j].0 == k;
        if i < j {
            assert(before(s[i].0, s[j].0));
        } else if j < i {
            assert(before(s[j].0, s[i].0));
        }
        lemma_before_irreflexive(k);
    }
    assert(lists(s, m));
    lemma_ordered(s, m);
}

proof fn lemma_put<T>(s: Seq<(Seq<char>, T)>, i: int, k: Seq<char>, v: T)
    requires
        ascending(s),
        0 <= i <= s.len(),
        forall|j: int| 0 <= j < i ==> before((#[trigger] s[j]).0, k),
        forall|j: int| i <= j < s.len() ==> !before((#[trigger] s[j]).0, k),
    ensures
        i < s.len() && s[i].0 == k ==> ascending(s.update(i, (k, v))) && map_of(
            s.update(i, (k, v)),
        ) == map_of(s).insert(k, v),
        !(i < s.len() && s[i].0 == k) ==> ascending(s.insert(i, (k, v))) && map_of(
            s.insert(i, (k, v)),
        ) == map_of(s).insert(k, v),
{
    lemma_before_irreflexive(k);
    lemma_map_of(s);
    let found = i < s.len() && s[i].0 == k;
    let gap: int = if found {
        0
    } else {
        1
    };
    let t = if found {
        s.update(i, (k, v))
    } else {
        s.insert(i, (k, v))
    };
    assert forall|a: int| 0 <= a < t.len() && a != i implies t[a] == s[if a < i {
        a
    } else {
        a - gap
    }] by {}
    assert(t[i] == (k, v));
    assert forall|y: int| i <= y < s.len() && (y > i || !found) implies before(
        k,
        (#[trigger] s[y]).0,
    ) by {
        lemma_before_total(k, s[y].0);
        if y > i {
            assert(before(s[i].0, s[y].0));
            lemma_before_total(k, s[i].0);
            if before(k, s[i].0) {
                lemma_before_transitive(k, s[i].0, s[y].0);
            }
        }
    }
    assert(ascending(t)) by {
        assert forall|a: int, b: int| 0 <= a < b < t.len() implies before(
            (#[trigger] t[a]).0,
            (#[trigger] t[b]).0,
        ) by {
            let x = if a < i {
                a
            } else {
                a - gap
            };
            let y = if b < i {
                b
            } else {
                b - gap
            };
            if a != i && b != i {
                assert(before(s[x].0, s[y].0));
            }
        }
    }
    lemma_map_of(t);
    let m = map_of(t);
    let n = map_of(s).insert(k, v);
    assert forall|q: Seq<char>| #[trigger] m.contains_key(q) <==> n.contains_key(q) by {
        if m.contains_key(q) && q != k {
            let a = choose|a: int| 0 <= a < t.len() && t[a].0 == q;
            assert(map_of(s).contains_key(t[a].0));
        }
        if map_of(s).contains_key(q) && q != k {
            let x = choose|x: int| 0 <= x < s.len() && s[x].0 == q;
            let a = if x < i || found {
                x
            } else {
                x + 1
            };
            assert(t[a] == s[x]);
        }
        if q == k {
            assert(m.contains_key(t[i].0));
        }
    }
    assert forall|q: Seq<char>| #[trigger] m.contains_key(q) implies m[q] == n[q] by {
        let a = choose|a: int| 0 <= a < t.len() && t[a].0 == q;
        assert(m[t[a].0] == t[a].1);
        if a == i {
            assert(q == k);
        } else {
            let x = if a < i {
                a
            } else {
                a - gap
            };
            assert(t[a] == s[x]);
            assert(map_of(s)[s[x].0] == s[x].1);
            if a < i {
                assert(before(t[a].0, t[i].0));
            } else {
                assert(before(t[i].0, t[a].0));
            }
        }
    }
    assert(m =~= n);
}

/// The entries of the map can be listed: there are finitely many of them.
pub open spec fn listable<T>(m: Map<Seq<char>, T>) -> bool {
    exists|s: Seq<(Seq<char>, T)>| lists(s, m)
}

/// The number of keys that stand before `k`.
spec fn rank<T>(s: Seq<(Seq<char>, T)>, k: Seq<char>) -> int
    decreases s.len(),
{
    if s.len() == 0 {
        0
    } else if before(s.last().0, k) {
        s.len() as int
    } else {
        rank(s.drop_last(), k)
    }
}

proof fn lemma_rank<T>(s: Seq<(Seq<char>, T)>, k: Seq<char>)
    requires
        ascending(s),
    ensures
        0 <= rank(s, k) <= s.len(),
        forall|j: int| 0 <= j < rank(s, k) ==> before((#[trigger] s[j]).0, k),
        forall|j: int| rank(s, k) <= j < s.len() ==> !before((#[trigger] s[j]).0, k),
    decreases s.len(),
{
    if s.len() > 0 {
        let t = s.drop_last();
        if before(s.last().0, k) {
            assert forall|j: int| 0 <= j < s.len() implies before((#[trigger] s[j]).0, k) by {
                if j < s.len() - 1 {
                    assert(before(s[j].0, s[s.len() - 1].0));
                    lemma_before_transitive(s[j].0, s[s.len() - 1].0, k);
                }
            }
        } else {
            assert(ascending(t)) by {
                assert forall|a: int, b: int| 0 <= a < b < t.len() implies before(
                    (#[trigger] t[a]).0,
                    (#[trigger] t[b]).0,
                ) by {
                    assert(before(s[a].0, s[b].0));
                }
            }
            lemma_rank(t, k);
            assert forall|j: int| 0 <= j < rank(s, k) implies before((#[trigger] s[j]).0, k) by {
                assert(t[j] == s[j]);
            }
            assert forall|j: int| rank(s, k) <= j < s.len() implies !before((#[trigger] s[j]).0, k) by {
                if j < s.len() - 1 {
                    assert(t[j] == s[j]);
                }
            }
        }
    }
}

/// The empty map can be listed, and so can a map with one entry more.
pub proof fn lemma_listable<T>(m: Map<Seq<char>, T>, k: Seq<char>, v: T)
    ensures
        listable(Map::<Seq<char>, T>::empty()),
        listable(m) ==> listable(m.insert(k, v)),
{
    assert(lists(Seq::<(Seq<char>, T)>::empty(), Map::<Seq<char>, T>::empty()));
    if listable(m) {
        let s = choose|s: Seq<(Seq<char>, T)>| lists(s, m);
        lemma_rank(s, k);
        lemma_put(s, rank(s, k), k, v);
        lemma_map_of(s);
        assert(map_of(s) =~= m) by {
            assert forall|q: Seq<char>| #[trigger] map_of(s).contains_key(q) implies m.contains_key(
                q,
            ) && map_of(s)[q] == m[q] by {
                let i = choose|i: int| 0 <= i < s.len() && s[i].0 == q;
                assert(m.contains_key(s[i].0));
                assert(map_of(s)[s[i].0] == s[i].1);
            }
            assert forall|q: Seq<char>| #[trigger] m.contains_key(q) implies map_of(
                s,
            ).contains_key(q) by {
                let i = choose|i: int| 0 <= i < s.len() && s[i].0 == q;
                assert(map_of(s).contains_key(s[i].0));
            }
        }
        let t = if rank(s, k) < s.len() && s[rank(s, k)].0 == k {
            s.update(rank(s, k), (k, v))
        } else {
            s.insert(rank(s, k), (k, v))
        };
        lemma_map_of(t);
        assert(lists(t, m.insert(k, v)));
    }
}

proof fn lemma_take_out<T>(s: Seq<(Seq<char>, T)>, i: int)
    requires
        ascending(s),
        0 <= i < s.len(),
    ensures
        ascending(s.remove(i)),
        map_of(s.remove(i)) == map_of(s).remove(s[i].0),
{
    let t = s.remove(i);
    let k = s[i].0;
    lemma_before_irreflexive(k);
    lemma_map_of(s);
    assert(ascending(t)) by {
        assert forall|a: int, b: int| 0 <= a < b < t.len() implies before(
            (#[trigger] t[a]).0,
            (#[trigger] t[b]).0,
        ) by {
            let x = if a < i {
                a
            } else {
                a + 1
            };
            let y = if b < i {
                b
            } else {
                b + 1
            };
            assert(before(s[x].0, s[y].0));
        }
    }
    lemma_map_of(t);
    let m = map_of(t);
    let n = map_of(s).remove(k);
    assert forall|q: Seq<char>| #[trigger] m.contains_key(q) <==> n.contains_key(q) by {
        if m.contains_key(q) {
            let a = choose|a: int| 0 <= a < t.len() && t[a].0 == q;
            let x = if a < i {
                a
            } else {
                a + 1
            };
            assert(t[a] == s[x]);
            if x < i {
                assert(before(s[x].0, s[i].0));
            } else {
                assert(before(s[i].0, s[x].0));
            }
        }
        if map_of(s).contains_key(q) && q != k {
            let x = choose|x: int| 0 <= x < s.len() && s[x].0 == q;
            let a = if x < i {
                x
            } else {
                x - 1
            };
            assert(t[a] == s[x]);
        }
    }
    assert forall|q: Seq<char>| #[trigger] m.contains_key(q) implies m[q] == n[q] by {
        let a = choose|a: int| 0 <= a < t.len() && t[a].0 == q;
        let x = if a < i {
            a
        } else {
            a + 1
        };
        assert(t[a] == s[x]);
        assert(m[t[a].0] == t[a].1);
        assert(map_of(s)[s[x].0] == s[x].1);
    }
    assert(m =~= n);
}

proof fn lemma_entries_ascend<V: DeepView>(work: Vec<(String, V)>)
    requires
        ascending(work.deep_view()),
    ensures
        forall|a: int, b: int|
            0 <= a < b < work@.len() ==> before(
                (#[trigger] work@[a]).0@,
                (#[trigger] work@[b]).0@,
            ),
{
    let t = work.deep_view();
    assert forall|a: int, b: int| 0 <= a < b < work@.len() implies before(
        (#[trigger] work@[a]).0@,
        (#[trigger] work@[b]).0@,
    ) by {
        assert(t[a].0 == work@[a].0@);
        assert(t[b].0 == work@[b].0@);
    }
}

impl<V: Clone + DeepView> Clone for StrMap<V> {
    /// Where cloning a value keeps what it holds, the clone of the map holds the same.
    fn clone(&self) -> (r: Self)
        ensures
            (forall|a: V, b: V| #[trigger] cloned(a, b) ==> a.deep_view() == b.deep_view()) ==> r@
                == self@,
    {
        proof {
            use_type_invariant(self);
        }
        let mut work: Vec<(String, V)> = Vec::new();
        let mut i: usize = 0;
        while i < self.entries.len()
            invariant
                i <= self.entries.len(),
                work@.len() == i,
                forall|j: int|
                    0 <= j < i ==> (#[trigger] work@[j]).0@ == self.entries@[j].0@ && cloned(
                        self.entries@[j].1,
                        work@[j].1,
                    ),
            decreases self.entries.len() - i,
        {
            work.push((self.entries[i].0.clone(), self.entries[i].1.clone()));
            i += 1;
        }
        proof {
            if forall|a: V, b: V| #[trigger] cloned(a, b) ==> a.deep_view() == b.deep_view() {
                assert(work.deep_view() =~= self.entries.deep_view());
            }
        }
        StrMap { entries: work }
    }
}

impl<V> StrMap<V> {
    #[verifier::type_invariant]
    spec fn keys_ascend(self) -> bool {
        forall|i: int, j: int|
            0 <= i < j < self.entries@.len() ==> before(
                (#[trigger] self.entries@[i]).0@,
                (#[trigger] self.entries@[j]).0@,
            )
    }
}

impl<V: DeepView> StrMap<V> {
    proof fn lemma_listing(&self)
        requires
            self.keys_ascend(),
        ensures
            ascending(self.entries.deep_view()),
            lists(self.entries.deep_view(), self@),
            ordered(self@) == self.entries.deep_view(),
    {
        let s = self.entries.deep_view();
        assert forall|i: int, j: int| 0 <= i < j < s.len() implies before(
            (#[trigger] s[i]).0,
            (#[trigger] s[j]).0,
        ) by {
            assert(s[i].0 == self.entries@[i].0@);
            assert(s[j].0 == self.entries@[j].0@);
        }
        lemma_map_of(s);
    }

    pub fn new() -> (r: Self)
        ensures
            r@ == Map::<Seq<char>, V::V>::empty(),
    {
        let r: StrMap<V> = StrMap { entries: Vec::new() };
        assert(r@ =~= Map::<Seq<char>, V::V>::empty());
        r
    }

    /// The number of entries.
    pub fn len(&self) -> (r: usize)
        ensures
            r == ordered(self@).len(),
            lists(ordered(self@), self@),
    {
        proof {
            use_type_invariant(self);
            self.lemma_listing();
        }
        self.entries.len()
    }

    pub fn is_empty(&self) -> (r: bool)
        ensures
            r == (self@ == Map::<Seq<char>, V::V>::empty()),
            r == (ordered(self@).len() == 0),
    {
        proof {
            use_type_invariant(self);
            self.lemma_listing();
            let s = ordered(self@);
            if s.len() == 0 {
                assert(self@ =~= Map::<Seq<char>, V::V>::empty());
            } else {
                assert(self@.contains_key(s[0].0));
            }
        }
        self.entries.len() == 0
    }

    /// The key that stands at position `i` of the order.
    pub fn key_at(&self, i: usize) -> (r: &str)
        requires
            i < ordered(self@).len(),
        ensures
            r@ == ordered(self@)[i as int].0,
            self@.contains_key(r@),
    {
        proof {
            use_type_invariant(self);
            self.lemma_listing();
            assert(ordered(self@)[i as int].0 == self.entries@[i as int].0@);
        }
        self.entries[i].0.as_str()
    }

    /// The value that belongs to the key at position `i` of the order.
    pub fn value_at(&self, i: usize) -> (r: &V)
        requires
            i < ordered(self@).len(),
        ensures
            r.deep_view() == ordered(self@)[i as int].1,
            r.deep_view() == self@[ordered(self@)[i as int].0],
    {
        proof {
            use_type_invariant(self);
            self.lemma_listing();
            assert(ordered(self@)[i as int].1 == self.entries@[i as int].1.deep_view());
        }
        &self.entries[i].1
    }

    /// The first position whose key does not stand before `key`.
    fn position(&self, key: &str) -> (r: usize)
        requires
            self.keys_ascend(),
        ensures
            r <= self.entries@.len(),
            forall|i: int| 0 <= i < r ==> before((#[trigger] self.entries@[i]).0@, key@),
            forall|i: int|
                r <= i < self.entries@.len() ==> !before((#[trigger] self.entries@[i]).0@, key@),
    {
        let mut i: usize = 0;
        while i < self.entries.len() && is_before(self.entries[i].0.as_str(), key)
            invariant
                i <= self.entries@.len(),
                forall|j: int| 0 <= j < i ==> before((#[trigger] self.entries@[j]).0@, key@),
            decreases self.entries@.len() - i,
        {
            i += 1;
        }
        assert forall|j: int| i <= j < self.entries@.len() implies !before(
            (#[trigger] self.entries@[j]).0@,
            key@,
        ) by {
            if j > i && before(self.entries@[j].0@, key@) {
                assert(before(self.entries@[i as int].0@, self.entries@[j].0@));
                lemma_before_transitive(self.entries@[i as int].0@, self.entries@[j].0@, key@);
            }
        }
        i
    }

    /// The position of `key`, where the map has it.
    fn find(&self, key: &str) -> (r: Option<usize>)
        requires
            self.keys_ascend(),
        ensures
            match r {
                Some(i) => i < self.entries@.len() && self.entries@[i as int].0@ == key@
                    && self@.contains_key(key@) && self@[key@]
                    == self.entries@[i as int].1.deep_view(),
                None => !self@.contains_key(key@),
            },
    {
        let i: usize = self.position(key);
        proof {
            self.lemma_listing();
        }
        let ghost s = self.entries.deep_view();
        if i < self.entries.len() && same(self.entries[i].0.as_str(), key) {
            assert(s[i as int].0 == key@);
            assert(s[i as int].1 == self.entries@[i as int].1.deep_view());
            Some(i)
        } else {
            proof {
                if self@.contains_key(key@) {
                    let j = choose|j: int| 0 <= j < s.len() && s[j].0 == key@;
                    assert(self.entries@[j].0@ == key@);
                    lemma_before_irreflexive(key@);
                    if j > i {
                        assert(before(self.entries@[i as int].0@, self.entries@[j].0@));
                    }
                }
            }
            None
        }
    }

    pub fn get(&self, key: &str) -> (r: Option<&V>)
        ensures
            match r {
                Some(v) => self@.contains_key(key@) && self@[key@] == v.deep_view(),
                None => !self@.contains_key(key@),
            },
    {
        proof {
            use_type_invariant(self);
        }
        match self.find(key) {
            Some(i) => Some(&self.entries[i].1),
            None => None,
        }
    }

    pub fn contains_key(&self, key: &str) -> (r: bool)
        ensures
            r == self@.contains_key(key@),
    {
        proof {
            use_type_invariant(self);
        }
        self.find(key).is_some()
    }

    /// Gives `key` the value `value`, in place of an earlier one.
    pub fn insert(&mut self, key: String, value: V)
        ensures
            final(self)@ == old(self)@.insert(key@, value.deep_view()),
    {
        proof {
            use_type_invariant(&*self);
            self.lemma_listing();
        }
        let ghost s = self.entries.deep_view();
        let i: usize = self.position(key.as_str());
        let ghost k = key@;
        let ghost v = value.deep_view();
        let found: bool = i < self.entries.len() && same(
            self.entries[i].0.as_str(),
            key.as_str(),
        );
        proof {
            assert forall|j: int| 0 <= j < s.len() implies (#[trigger] s[j]).0
                == self.entries@[j].0@ by {}
            lemma_put(s, i as int, k, v);
        }
        let mut work: Vec<(String, V)> = Vec::new();
        std::mem::swap(&mut work, &mut self.entries);
        if found {
            work.set(i, (key, value));
            assert(work.deep_view() =~= s.update(i as int, (k, v)));
        } else {
            work.insert(i, (key, value));
            assert(work.deep_view() =~= s.insert(i as int, (k, v)));
        }
        proof {
            lemma_entries_ascend(work);
        }
        self.entries = work;
    }

    /// Takes the value of `key` out of the map.
    pub fn remove(&mut self, key: &str) -> (r: Option<V>)
        ensures
            final(self)@ == old(self)@.remove(key@),
            match r {
                Some(v) => old(self)@.contains_key(key@) && old(self)@[key@] == v.deep_view(),
                None => !old(self)@.contains_key(key@),
            },
    {
        proof {
            use_type_invariant(&*self);
            self.lemma_listing();
        }
        let ghost before_map = self@;
        let ghost s = self.entries.deep_view();
        match self.find(key) {
            None => {
                assert(before_map =~= before_map.remove(key@));
                None
            },
            Some(i) => {
                assert(s[i as int].0 == key@);
                proof {
                    lemma_take_out(s, i as int);
                }
                let mut work: Vec<(String, V)> = Vec::new();
                std::mem::swap(&mut work, &mut self.entries);
                let (_, value) = work.remove(i);
                assert(work.deep_view() =~= s.remove(i as int));
                proof {
                    lemma_entries_ascend(work);
                }
                self.entries = work;
                Some(value)
            },
        }
    }
}

impl<V: DeepView> StrMap<V> {
    /// The entries in the order of their keys.
    pub fn into_entries(self) -> (r: Vec<(String, V)>)
        ensures
            r.deep_view() == ordered(self@),
            lists(ordered(self@), self@),
    {
        proof {
            use_type_invariant(&self);
            self.lemma_listing();
        }
        self.entries
    }

    /// The values in the order of their keys.
    pub fn into_values(self) -> (r: Vec<V>)
        ensures
            r.deep_view() == ordered(self@).map_values(|e: (Seq<char>, V::V)| e.1),
    {
        let ghost all = ordered(self@);
        let entries: Vec<(String, V)> = self.into_entries();
        let ghost work = entries@;
        let mut out: Vec<V> = Vec::new();
        assert forall|i: int| 0 <= i < work.len() implies (#[trigger] work[i]).1.deep_view()
            == all[i].1 by {
            assert(entries.deep_view()[i] == all[i]);
        }
        for entry in it: entries
            invariant
                it.seq() == work,
                work.len() == all.len(),
                forall|i: int|
                    0 <= i < work.len() ==> (#[trigger] work[i]).1.deep_view() == all[i].1,
                out@.len() == it.index(),
                forall|i: int| 0 <= i < out@.len() ==> (#[trigger] out@[i]) == work[i].1,
        {
            out.push(entry.1);
        }
        assert(out.deep_view() =~= all.map_values(|e: (Seq<char>, V::V)| e.1));
        out
    }
}

/// One of the first `n` entries of a listing has the key `k`.
pub open spec fn seen<T>(listing: Seq<(Seq<char>, T)>, n: int, k: Seq<char>) -> bool {
    exists|j: int| 0 <= j < n && (#[trigger] listing[j]).0 == k
}

pub proof fn lemma_seen<T>(listing: Seq<(Seq<char>, T)>, n: int)
    requires
        0 <= n < listing.len(),
    ensures
        forall|k: Seq<char>| #[trigger]
            seen(listing, n + 1, k) <==> seen(listing, n, k) || k == listing[n].0,
        forall|k: Seq<char>| #[trigger] seen(listing, n, k) ==> seen(listing, n + 1, k),
{
    assert forall|k: Seq<char>| #[trigger] seen(listing, n + 1, k) <==> seen(listing, n, k) || k
        == listing[n].0 by {
        if k == listing[n].0 {
            assert(listing[n].0 == k);
        }
    }
}

/// The entries of a listing have the keys of the map.
pub proof fn lemma_all_seen<T>(listing: Seq<(Seq<char>, T)>, m: Map<Seq<char>, T>)
    requires
        lists(listing, m),
    ensures
        forall|k: Seq<char>| #![trigger m.contains_key(k)]
            seen(listing, listing.len() as int, k) <==> m.contains_key(k),
{
    assert forall|k: Seq<char>|
        seen(listing, listing.len() as int, k) <==> #[trigger] m.contains_key(k) by {
        if m.contains_key(k) {
            let j = choose|j: int| 0 <= j < listing.len() && listing[j].0 == k;
            assert(listing[j].0 == k);
        }
    }
}

/// The members of a finite set of strings in ascending order.
pub open spec fn ascending_members(s: Set<Seq<char>>) -> Seq<Seq<char>> {
    ordered(s.mk_map(|k: Seq<char>| ())).map_values(|e: (Seq<char>, ())| e.0)
}

/// A set of strings that is walked in ascending order.
#[derive(Debug)]
pub struct StrSet {
    keys: StrMap<()>,
}

impl Clone for StrSet {
    fn clone(&self) -> (r: Self)
        ensures
            r@ == self@,
    {
        StrSet { keys: self.keys.clone() }
    }
}

impl View for StrSet {
    type V = Set<Seq<char>>;

    closed spec fn view(&self) -> Set<Seq<char>> {
        self.keys@.dom()
    }
}

impl DeepView for StrSet {
    type V = Set<Seq<char>>;

    open spec fn deep_view(&self) -> Set<Seq<char>> {
        self@
    }
}

impl StrSet {
    proof fn lemma_members(&self)
        ensures
            self@.mk_map(|k: Seq<char>| ()) == self.keys@,
    {
        assert(self@.mk_map(|k: Seq<char>| ()) =~= self.keys@);
    }

    pub fn new() -> (r: Self)
        ensures
            r@ == Set::<Seq<char>>::empty(),
    {
        let r: StrSet = StrSet { keys: StrMap::new() };
        assert(r@ =~= Set::<Seq<char>>::empty());
        r
    }

    pub fn contains(&self, key: &str) -> (r: bool)
        ensures
            r == self@.contains(key@),
    {
        self.keys.contains_key(key)
    }

    pub fn insert(&mut self, key: String)
        ensures
            final(self)@ == old(self)@.insert(key@),
    {
        self.keys.insert(key, ());
        assert(self@ =~= old(self)@.insert(key@));
    }

    pub fn is_empty(&self) -> (r: bool)
        ensures
            r == (self@ == Set::<Seq<char>>::empty()),
    {
        let r: bool = self.keys.is_empty();
        proof {
            if r {
                assert(self@ =~= Set::<Seq<char>>::empty());
            } else if self@ == Set::<Seq<char>>::empty() {
                assert(self.keys@ =~= Map::<Seq<char>, ()>::empty());
            }
        }
        r
    }

    pub fn len(&self) -> (r: usize)
        ensures
            r == ascending_members(self@).len(),
    {
        proof {
            self.lemma_members();
        }
        self.keys.len()
    }

    /// The member at position `i` of the order.
    pub fn at(&self, i: usize) -> (r: &str)
        requires
            i < ascending_members(self@).len(),
        ensures
            r@ == ascending_members(self@)[i as int],
            self@.contains(r@),
    {
        proof {
            self.lemma_members();
        }
        self.keys.key_at(i)
    }
}

} // verus!
