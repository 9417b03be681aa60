//! Small keyed collections with mathematical models: a table is a finite map,
//! a key set a finite set.
use crate::text::same_text;
use vstd::prelude::*;

verus! {

/// Keys that can be compared and copied by their model.
pub trait TableKey: View + Sized {
    /// Compares two keys by their models.
    fn same(&self, other: &Self) -> (r: bool)
        ensures
            r == (self@ == other@),
    ;

    /// A key with the same model.
    fn duplicate(&self) -> (r: Self)
        ensures
            r@ == self@,
    ;
}

impl TableKey for u32 {
    fn same(&self, other: &Self) -> (r: bool) {
        *self == *other
    }

    fn duplicate(&self) -> (r: Self) {
        *self
    }
}

impl TableKey for u16 {
    fn same(&self, other: &Self) -> (r: bool) {
        *self == *other
    }

    fn duplicate(&self) -> (r: Self) {
        *self
    }
}

impl TableKey for u128 {
    fn same(&self, other: &Self) -> (r: bool) {
        *self == *other
    }

    fn duplicate(&self) -> (r: Self) {
        *self
    }
}

impl TableKey for String {
    fn same(&self, other: &Self) -> (r: bool) {
        same_text(self.as_str(), other.as_str())
    }

    fn duplicate(&self) -> (r: Self) {
        self.clone()
    }
}

/// A finite map from keys to values.
#[derive(Debug)]
pub struct Table<K: TableKey, V: View> {
    items: Vec<(K, V)>,
}

/// Entries in storage order, by their models.
pub open spec fn models<K: View, V: View>(items: Seq<(K, V)>) -> Seq<(K::V, V::V)> {
    items.map_values(|e: (K, V)| (e.0@, e.1@))
}

/// No key occurs twice.
pub open spec fn keys_distinct<A, B>(s: Seq<(A, B)>) -> bool {
    forall|i: int, j: int| 0 <= i < j < s.len() ==> (#[trigger] s[i]).0 != (#[trigger] s[j]).0
}

/// The map that a list of entries holds.
pub open spec fn map_of<A, B>(s: Seq<(A, B)>) -> Map<A, B>
    decreases s.len(),
{
    if s.len() == 0 {
        Map::empty()
    } else {
        map_of(s.drop_last()).insert(s.last().0, s.last().1)
    }
}

/// The map of distinct entries has exactly those entries.
pub proof fn map_of_entries<A, B>(s: Seq<(A, B)>)
    requires
        keys_distinct(s),
    ensures
        map_of(s).dom().finite(),
        map_of(s).len() == s.len(),
        map_of(s).dom().len() == s.len(),
        forall|i: int|
            0 <= i < s.len() ==> map_of(s).dom().contains((#[trigger] s[i]).0) && map_of(s)[s[i].0]
                == s[i].1,
        forall|k: A| #[trigger]
            map_of(s).dom().contains(k) ==> exists|i: int|
                0 <= i < s.len() && (#[trigger] s[i]).0 == k,
    decreases s.len(),
{
    if s.len() > 0 {
        let init = s.drop_last();
        assert(keys_distinct(init)) by {
            assert forall|i: int, j: int| 0 <= i < j < init.len() implies (#[trigger] init[i]).0 != (
            #[trigger] init[j]).0 by {
                assert(s[i].0 != s[j].0);
            }
        }
        map_of_entries(init);
        let last = s.last();
        assert(!map_of(init).dom().contains(last.0)) by {
            if map_of(init).dom().contains(last.0) {
                let i = choose|i: int| 0 <= i < init.len() && (#[trigger] init[i]).0 == last.0;
                assert(s[i].0 != s[s.len() - 1].0);
            }
        }
        assert forall|i: int| 0 <= i < s.len() implies map_of(s).dom().contains((#[trigger] s[i]).0)
            && map_of(s)[s[i].0] == s[i].1 by {
            if i < init.len() {
                assert(init[i] == s[i]);
                assert(s[i].0 != s[s.len() - 1].0);
            }
        }
        assert forall|k: A| #[trigger] map_of(s).dom().contains(k) implies exists|i: int|
            0 <= i < s.len() && (#[trigger] s[i]).0 == k by {
            if k == last.0 {
                assert(s[s.len() - 1].0 == k);
            } else {
                assert(map_of(init).dom().contains(k));
                let i = choose|i: int| 0 <= i < init.len() && (#[trigger] init[i]).0 == k;
                assert(s[i].0 == k);
            }
        }
    }
}

proof fn map_of_remove<A, B>(s: Seq<(A, B)>, i: int)
    requires
        keys_distinct(s),
        0 <= i < s.len(),
    ensures
        keys_distinct(s.remove(i)),
        map_of(s.remove(i)) == map_of(s).remove(s[i].0),
{
    let t = s.remove(i);
    assert forall|a: int, b: int| 0 <= a < b < t.len() implies (#[trigger] t[a]).0 != (
    #[trigger] t[b]).0 by {
        let x = if a < i {
            a
        } else {
            a + 1
        };
        let y = if b < i {
            b
        } else {
            b + 1
        };
        assert(s[x].0 != s[y].0);
    }
    map_of_entries(s);
    map_of_entries(t);
    assert forall|k: A| map_of(t).dom().contains(k) <==> #[trigger] map_of(s).remove(
        s[i].0,
    ).dom().contains(k) by {
        if map_of(t).dom().contains(k) {
            let a = choose|a: int| 0 <= a < t.len() && (#[trigger] t[a]).0 == k;
            let x = if a < i {
                a
            } else {
                a + 1
            };
            assert(s[x].0 == k);
            assert(s[x].0 != s[i].0) by {
                if x < i {
                    assert(s[x].0 != s[i].0);
                } else {
                    assert(s[i].0 != s[x].0);
                }
            }
        }
        if map_of(s).dom().contains(k) && k != s[i].0 {
            let x = choose|x: int| 0 <= x < s.len() && (#[trigger] s[x]).0 == k;
            let a = if x < i {
                x
            } else {
                x - 1
            };
            assert(t[a].0 == k);
        }
    }
    assert forall|k: A| map_of(t).dom().contains(k) implies map_of(t)[k] == #[trigger] map_of(
        s,
    ).remove(s[i].0)[k] by {
        let a = choose|a: int| 0 <= a < t.len() && (#[trigger] t[a]).0 == k;
        let x = if a < i {
            a
        } else {
            a + 1
        };
        assert(s[x] == t[a]);
    }
    assert(map_of(t) =~= map_of(s).remove(s[i].0));
}

impl<K: TableKey, V: View> View for Table<K, V> {
    type V = Map<K::V, V::V>;

    closed spec fn view(&self) -> Map<K::V, V::V> {
        map_of(models(self.items@))
    }
}

impl<K: TableKey, V: View> Table<K, V> {
    #[verifier::type_invariant]
    spec fn distinct(self) -> bool {
        keys_distinct(models(self.items@))
    }

    /// The entries in the order in which they are stored.
    pub closed spec fn entries(&self) -> Seq<(K::V, V::V)> {
        models(self.items@)
    }

    /// An empty table.
    pub fn new() -> (r: Self)
        ensures
            r@ == Map::<K::V, V::V>::empty(),
    {
        let r = Table { items: Vec::new() };
        assert(models(r.items@) =~= Seq::<(K::V, V::V)>::empty());
        r
    }

    /// Number of entries, with what the entries have to do with the map.
    pub fn len(&self) -> (r: usize)
        ensures
            r == self@.len(),
            r == self.entries().len(),
            self@.dom().finite(),
            self@.dom().len() == r,
            self@ == map_of(self.entries()),
            keys_distinct(self.entries()),
            forall|i: int|
                0 <= i < r ==> self@.dom().contains((#[trigger] self.entries()[i]).0)
                    && self@[self.entries()[i].0] == self.entries()[i].1,
            forall|k: K::V| #[trigger]
                self@.dom().contains(k) ==> exists|i: int|
                    0 <= i < r && (#[trigger] self.entries()[i]).0 == k,
    {
        proof {
            use_type_invariant(self);
            map_of_entries(models(self.items@));
        }
        self.items.len()
    }

    pub fn is_empty(&self) -> (r: bool)
        ensures
            r == (self@ =~= Map::<K::V, V::V>::empty()),
            r == (self@.len() == 0),
    {
        let n = self.len();
        proof {
            if n == 0 {
                assert(self@.dom() =~= Set::empty());
            }
        }
        n == 0
    }

    /// The `i`-th entry in storage order.
    pub fn entry(&self, i: usize) -> (r: (&K, &V))
        requires
            i < self.entries().len(),
        ensures
            (r.0@, r.1@) == self.entries()[i as int],
            self@.dom().contains(r.0@),
            self@[r.0@] == r.1@,
    {
        proof {
            use_type_invariant(self);
            map_of_entries(models(self.items@));
        }
        let e = &self.items[i];
        assert(models(self.items@)[i as int] == (e.0@, e.1@));
        (&e.0, &e.1)
    }

    fn position(&self, k: &K) -> (r: Option<usize>)
        ensures
            match r {
                Some(i) => i < self.items@.len() && self.items@[i as int].0@ == k@
                    && self@.dom().contains(k@) && self@[k@] == self.items@[i as int].1@,
                None => !self@.dom().contains(k@),
            },
    {
        proof {
            use_type_invariant(self);
            map_of_entries(models(self.items@));
        }
        let mut i: usize = 0;
        while i < self.items.len()
            invariant
                i <= self.items@.len(),
                forall|j: int| 0 <= j < i ==> (#[trigger] self.items@[j]).0@ != k@,
            decreases self.items@.len() - i,
        {
            if self.items[i].0.same(k) {
                assert(models(self.items@)[i as int].0 == k@);
                proof {
                    use_type_invariant(self);
                    map_of_entries(models(self.items@));
                }
                return Some(i);
            }
            i += 1;
        }
        proof {
            if self@.dom().contains(k@) {
                let j = choose|j: int|
                    0 <= j < models(self.items@).len() && (#[trigger] models(self.items@)[j]).0
                        == k@;
                assert(self.items@[j].0@ == k@);
            }
        }
        None
    }

    pub fn contains_key(&self, k: &K) -> (r: bool)
        ensures
            r == self@.dom().contains(k@),
    {
        self.position(k).is_some()
    }

    pub fn get(&self, k: &K) -> (r: Option<&V>)
        ensures
            match r {
                Some(v) => self@.dom().contains(k@) && self@[k@] == v@,
                None => !self@.dom().contains(k@),
            },
    {
        match self.position(k) {
            Some(i) => Some(&self.items[i].1),
            None => None,
        }
    }

    /// Sets the value of a key and hands back the one that it had.
    pub fn insert(&mut self, k: K, v: V) -> (r: Option<V>)
        ensures
            final(self)@ == old(self)@.insert(k@, v@),
            match r {
                Some(w) => old(self)@.dom().contains(k@) && old(self)@[k@] == w@,
                None => !old(self)@.dom().contains(k@),
            },
    {
        let found = self.position(&k);
        proof {
            use_type_invariant(&*self);
            map_of_entries(models(self.items@));
        }
        let mut items: Vec<(K, V)> = Vec::new();
        let ghost before = self.items@;
        std::mem::swap(&mut items, &mut self.items);
        let r = match found {
            Some(i) => {
                let (_, w) = items.swap_remove(i);
                items.push((k, v));
                proof {
                    swap_back(before, i as int, k, v, items@);
                }
                Some(w)
            },
            None => {
                items.push((k, v));
                proof {
                    let s = models(before);
                    let t = models(items@);
                    assert(t =~= s.push((k@, v@)));
                    assert(t.drop_last() =~= s);
                    assert forall|a: int, b: int| 0 <= a < b < t.len() implies (#[trigger] t[a]).0
                        != (#[trigger] t[b]).0 by {
                        if b < s.len() {
                            assert(s[a].0 != s[b].0);
                        } else {
                            assert(map_of(s).dom().contains(s[a].0));
                        }
                    }
                }
                None
            },
        };
        self.items = items;
        r
    }

    /// Removes a key and hands back the value that it had.
    pub fn remove(&mut self, k: &K) -> (r: Option<V>)
        ensures
            final(self)@ == old(self)@.remove(k@),
            match r {
                Some(w) => old(self)@.dom().contains(k@) && old(self)@[k@] == w@,
                None => !old(self)@.dom().contains(k@),
            },
    {
        let found = self.position(k);
        proof {
            use_type_invariant(&*self);
            map_of_entries(models(self.items@));
        }
        match found {
            Some(i) => {
                let mut items: Vec<(K, V)> = Vec::new();
                let ghost before = self.items@;
                std::mem::swap(&mut items, &mut self.items);
                let e = items.remove(i);
                proof {
                    map_of_remove(models(before), i as int);
                    assert(models(items@) =~= models(before).remove(i as int));
                }
                self.items = items;
                let (_, v) = e;
                Some(v)
            },
            None => {
                assert(self@.remove(k@) =~= self@);
                None
            },
        }
    }

    /// Takes some entry out of the table.
    pub fn pop(&mut self) -> (r: Option<(K, V)>)
        ensures
            match r {
                Some((k, v)) => {
                    &&& old(self)@.dom().contains(k@)
                    &&& old(self)@[k@] == v@
                    &&& final(self)@ == old(self)@.remove(k@)
                    &&& final(self)@.len() + 1 == old(self)@.len()
                },
                None => old(self)@ == Map::<K::V, V::V>::empty() && final(self)@ == old(self)@,
            },
    {
        proof {
            use_type_invariant(&*self);
            map_of_entries(models(self.items@));
        }
        let mut items: Vec<(K, V)> = Vec::new();
        let ghost before = self.items@;
        std::mem::swap(&mut items, &mut self.items);
        let e = items.pop();
        proof {
            let s = models(before);
            if s.len() > 0 {
                let n = s.len() - 1;
                map_of_remove(s, n);
                assert(models(items@) =~= s.remove(n));
                map_of_entries(s.remove(n));
                assert(s[n] == (before[n].0@, before[n].1@));
            } else {
                assert(models(items@) =~= s);
            }
        }
        self.items = items;
        e
    }
}

/// A test on values, together with the set of values that pass it.
pub trait Keep<V: View> {
    spec fn wants(&self, v: V::V) -> bool;

    fn keeps(&self, v: &V) -> (r: bool)
        ensures
            r == self.wants(v@),
    ;
}

/// The entries of a map whose values pass a test.
pub open spec fn kept<A, B>(m: Map<A, B>, p: spec_fn(B) -> bool) -> Map<A, B> {
    m.restrict(m.dom().filter(|k: A| p(m[k])))
}

impl<K: TableKey, V: View> Table<K, V> {
    /// Keeps the entries whose values pass a test and drops the others.
    pub fn retain<P: Keep<V>>(&mut self, p: &P)
        ensures
            final(self)@ == kept(old(self)@, |v: V::V| p.wants(v)),
    {
        let ghost whole = self@;
        let mut rest: Table<K, V> = Table::new();
        std::mem::swap(&mut rest, self);
        let mut n: usize = rest.len();
        while n > 0
            invariant
                n == rest@.len(),
                rest@.dom().finite(),
                forall|k: K::V| #[trigger]
                    rest@.dom().contains(k) ==> whole.dom().contains(k) && rest@[k] == whole[k],
                forall|k: K::V| #[trigger]
                    self@.dom().contains(k) <==> whole.dom().contains(k) && !rest@.dom().contains(k)
                        && p.wants(whole[k]),
                forall|k: K::V| #[trigger] self@.dom().contains(k) ==> self@[k] == whole[k],
            decreases n,
        {
            match rest.pop() {
                Some((k, v)) => {
                    if p.keeps(&v) {
                        self.insert(k, v);
                    }
                },
                None => {},
            }
            n = rest.len();
        }
        assert(rest@.dom() =~= Set::<K::V>::empty());
        assert(self@ =~= kept(whole, |v: V::V| p.wants(v)));
    }

    /// The keys whose values pass a test.
    pub fn keys_where<P: Keep<V>>(&self, p: &P) -> (r: KeySet<K>)
        ensures
            r@ == kept(self@, |v: V::V| p.wants(v)).dom(),
            r@.finite(),
    {
        let mut out: KeySet<K> = KeySet::new();
        let n: usize = self.len();
        let mut i: usize = 0;
        while i < n
            invariant
                i <= n,
                n == self.entries().len(),
                forall|k: K::V| #[trigger]
                    out@.contains(k) <==> exists|j: int|
                        0 <= j < i && (#[trigger] self.entries()[j]).0 == k && p.wants(
                            self.entries()[j].1,
                        ),
            decreases n - i,
        {
            let (k, v) = self.entry(i);
            let ghost before = out@;
            let keep = p.keeps(v);
            if keep {
                out.insert(k.duplicate());
            }
            proof {
                assert(self.entries()[i as int] == (k@, v@));
                assert forall|q: K::V| #[trigger] out@.contains(q) <==> exists|j: int|
                    0 <= j < i + 1 && (#[trigger] self.entries()[j]).0 == q && p.wants(
                        self.entries()[j].1,
                    ) by {
                    if before.contains(q) {
                        let j = choose|j: int|
                            0 <= j < i && (#[trigger] self.entries()[j]).0 == q && p.wants(
                                self.entries()[j].1,
                            );
                        assert(0 <= j < i + 1 && self.entries()[j].0 == q);
                    }
                    if exists|j: int|
                        0 <= j < i + 1 && (#[trigger] self.entries()[j]).0 == q && p.wants(
                            self.entries()[j].1,
                        ) {
                        let j = choose|j: int|
                            0 <= j < i + 1 && (#[trigger] self.entries()[j]).0 == q && p.wants(
                                self.entries()[j].1,
                            );
                        if j < i {
                            assert(before.contains(q));
                        }
                    }
                }
            }
            i += 1;
        }
        let _n = self.len();
        let _m = out.len();
        proof {
            let want = kept(self@, |v: V::V| p.wants(v)).dom();
            assert forall|q: K::V| out@.contains(q) <==> want.contains(q) by {
                if want.contains(q) {
                    let j = choose|j: int|
                        0 <= j < self.entries().len() && (#[trigger] self.entries()[j]).0 == q;
                    assert(self@[self.entries()[j].0] == self.entries()[j].1);
                }
                if out@.contains(q) {
                    let j = choose|j: int|
                        0 <= j < n && (#[trigger] self.entries()[j]).0 == q && p.wants(
                            self.entries()[j].1,
                        );
                    assert(self@.dom().contains(self.entries()[j].0));
                }
            }
            assert(out@ =~= want);
        }
        out
    }

    /// Number of entries whose values pass a test.
    pub fn count_where<P: Keep<V>>(&self, p: &P) -> (r: usize)
        ensures
            r == kept(self@, |v: V::V| p.wants(v)).dom().len(),
    {
        self.keys_where(p).len()
    }

    /// The keys of the table.
    pub fn keys(&self) -> (r: KeySet<K>)
        ensures
            r@ == self@.dom(),
    {
        let all = Everything;
        let r = self.keys_where(&all);
        assert(kept(self@, |v: V::V| <Everything as Keep<V>>::wants(&all, v)).dom() =~= self@.dom());
        r
    }
}

/// The test that every value passes.
pub struct Everything;

impl<V: View> Keep<V> for Everything {
    open spec fn wants(&self, v: V::V) -> bool {
        true
    }

    fn keeps(&self, v: &V) -> (r: bool) {
        true
    }
}

/// Moving the replaced entry to the end keeps the map.
proof fn swap_back<K: TableKey, V: View>(
    before: Seq<(K, V)>,
    i: int,
    k: K,
    v: V,
    after: Seq<(K, V)>,
)
    requires
        keys_distinct(models(before)),
        0 <= i < before.len(),
        before[i].0@ == k@,
        after == before.update(i, before.last()).drop_last().push((k, v)),
    ensures
        keys_distinct(models(after)),
        map_of(models(after)) == map_of(models(before)).insert(k@, v@),
{
    let s = models(before);
    let t = models(after);
    let n = s.len() - 1;
    assert forall|a: int| 0 <= a < t.len() implies #[trigger] t[a] == (if a == n {
        (k@, v@)
    } else if a == i {
        s[n]
    } else {
        s[a]
    }) by {}
    assert forall|a: int, b: int| 0 <= a < b < t.len() implies (#[trigger] t[a]).0 != (
    #[trigger] t[b]).0 by {
        let x = if a == i {
            n
        } else {
            a
        };
        let y = if b == n {
            i
        } else if b == i {
            n
        } else {
            b
        };
        assert(s[i].0 == k@);
        assert(t[a].0 == s[x].0);
        assert(t[b].0 == s[y].0);
        assert(x != y);
        if x < y {
            assert(s[x].0 != s[y].0);
        } else {
            assert(s[y].0 != s[x].0);
        }
    }
    map_of_entries(s);
    map_of_entries(t);
    assert forall|q: K::V| map_of(t).dom().contains(q) <==> #[trigger] map_of(s).insert(
        k@,
        v@,
    ).dom().contains(q) by {
        assert(t[n].0 == k@);
        if map_of(t).dom().contains(q) {
            let a = choose|a: int| 0 <= a < t.len() && (#[trigger] t[a]).0 == q;
            if a != n {
                let x = if a == i {
                    n
                } else {
                    a
                };
                assert(s[x].0 == q);
            }
        }
        if map_of(s).dom().contains(q) && q != k@ {
            let a = choose|a: int| 0 <= a < s.len() && (#[trigger] s[a]).0 == q;
            assert(s[i].0 == k@);
            let x = if a == n {
                i
            } else {
                a
            };
            assert(t[x].0 == q);
        }
    }
    assert forall|q: K::V| map_of(t).dom().contains(q) implies map_of(t)[q] == #[trigger] map_of(
        s,
    ).insert(k@, v@)[q] by {
        let a = choose|a: int| 0 <= a < t.len() && (#[trigger] t[a]).0 == q;
        if a != n {
            let x = if a == i {
                n
            } else {
                a
            };
            assert(t[a] == s[x]);
            assert(t[a].0 != t[n].0);
        }
    }
    assert(map_of(t) =~= map_of(s).insert(k@, v@));
}

impl<K: TableKey, V: View> Default for Table<K, V> {
    fn default() -> (r: Self)
        ensures
            r@ == Map::<K::V, V::V>::empty(),
    {
        Table::new()
    }
}

/// A finite set of keys.
#[derive(Debug)]
pub struct KeySet<K: TableKey> {
    items: Vec<K>,
}

/// The models of a list of keys.
pub open spec fn key_models<K: View>(items: Seq<K>) -> Seq<K::V> {
    items.map_values(|k: K| k@)
}

impl<K: TableKey> View for KeySet<K> {
    type V = Set<K::V>;

    closed spec fn view(&self) -> Set<K::V> {
        key_models(self.items@).to_set()
    }
}

impl<K: TableKey> KeySet<K> {
    #[verifier::type_invariant]
    spec fn distinct(self) -> bool {
        key_models(self.items@).no_duplicates()
    }

    /// The members in the order in which they are stored.
    pub closed spec fn members(&self) -> Seq<K::V> {
        key_models(self.items@)
    }

    /// The empty set.
    pub fn new() -> (r: Self)
        ensures
            r@ == Set::<K::V>::empty(),
    {
        let r = KeySet { items: Vec::new() };
        assert(key_models(r.items@) =~= Seq::<K::V>::empty());
        assert(r@ =~= Set::<K::V>::empty());
        r
    }

    /// Number of members, with what the stored members have to do with the set.
    pub fn len(&self) -> (r: usize)
        ensures
            r == self@.len(),
            r == self.members().len(),
            self@.finite(),
            self.members().no_duplicates(),
            self@ == self.members().to_set(),
            forall|i: int| 0 <= i < r ==> self@.contains(#[trigger] self.members()[i]),
            forall|k: K::V| #[trigger]
                self@.contains(k) ==> exists|i: int| 0 <= i < r && #[trigger] self.members()[i] == k,
    {
        proof {
            use_type_invariant(self);
            let m = key_models(self.items@);
            m.unique_seq_to_set();
            assert forall|i: int| 0 <= i < m.len() implies m.to_set().contains(#[trigger] m[i]) by {
                assert(m.contains(m[i]));
            }
            assert forall|k: K::V| #[trigger] m.to_set().contains(k) implies exists|i: int|
                0 <= i < m.len() && #[trigger] m[i] == k by {
                assert(m.contains(k));
            }
        }
        self.items.len()
    }

    pub fn is_empty(&self) -> (r: bool)
        ensures
            r == (self@ == Set::<K::V>::empty()),
    {
        let n = self.len();
        proof {
            if n == 0 {
                assert(self@ =~= Set::empty());
            }
        }
        n == 0
    }

    /// The `i`-th member in storage order.
    pub fn member(&self, i: usize) -> (r: &K)
        requires
            i < self.members().len(),
        ensures
            r@ == self.members()[i as int],
            self@.contains(r@),
    {
        let k = &self.items[i];
        assert(key_models(self.items@)[i as int] == k@);
        assert(key_models(self.items@).contains(k@));
        k
    }

    fn position(&self, k: &K) -> (r: Option<usize>)
        ensures
            match r {
                Some(i) => i < self.items@.len() && self.items@[i as int]@ == k@
                    && self@.contains(k@),
                None => !self@.contains(k@),
            },
    {
        let mut i: usize = 0;
        while i < self.items.len()
            invariant
                i <= self.items@.len(),
                forall|j: int| 0 <= j < i ==> (#[trigger] self.items@[j])@ != k@,
            decreases self.items@.len() - i,
        {
            if self.items[i].same(k) {
                assert(key_models(self.items@)[i as int] == k@);
                assert(key_models(self.items@).contains(k@));
                return Some(i);
            }
            i += 1;
        }
        proof {
            if key_models(self.items@).contains(k@) {
                let j = choose|j: int|
                    0 <= j < key_models(self.items@).len() && #[trigger] key_models(self.items@)[j]
                        == k@;
                assert(self.items@[j]@ == k@);
            }
        }
        None
    }

    pub fn contains(&self, k: &K) -> (r: bool)
        ensures
            r == self@.contains(k@),
    {
        self.position(k).is_some()
    }

    /// Adds a member; says whether it was new.
    pub fn insert(&mut self, k: K) -> (r: bool)
        ensures
            final(self)@ == old(self)@.insert(k@),
            r == !old(self)@.contains(k@),
    {
        if self.contains(&k) {
            assert(self@.insert(k@) =~= self@);
            return false;
        }
        proof {
            use_type_invariant(&*self);
        }
        let mut items: Vec<K> = Vec::new();
        let ghost before = self.items@;
        std::mem::swap(&mut items, &mut self.items);
        items.push(k);
        proof {
            let s = key_models(before);
            let t = key_models(items@);
            assert(t =~= s.push(k@));
            assert(!s.contains(k@));
            assert(t.to_set() =~= s.to_set().insert(k@)) by {
                assert forall|x: K::V| t.contains(x) <==> s.contains(x) || x == k@ by {
                    if s.contains(x) {
                        let j = choose|j: int| 0 <= j < s.len() && s[j] == x;
                        assert(t[j] == x);
                    }
                    assert(t[s.len() as int] == k@);
                }
            }
        }
        self.items = items;
        true
    }

    /// Removes a member; says whether it was there.
    pub fn remove(&mut self, k: &K) -> (r: bool)
        ensures
            final(self)@ == old(self)@.remove(k@),
            r == old(self)@.contains(k@),
    {
        let found = self.position(k);
        proof {
            use_type_invariant(&*self);
        }
        match found {
            Some(i) => {
                let mut items: Vec<K> = Vec::new();
                let ghost before = self.items@;
                std::mem::swap(&mut items, &mut self.items);
                let _ = items.remove(i);
                proof {
                    let s = key_models(before);
                    let t = key_models(items@);
                    assert(t =~= s.remove(i as int));
                    assert(t.to_set() =~= s.to_set().remove(k@)) by {
                        assert forall|x: K::V| t.contains(x) <==> s.contains(x) && x != k@ by {
                            if t.contains(x) {
                                let j = choose|j: int| 0 <= j < t.len() && t[j] == x;
                                let y = if j < i {
                                    j
                                } else {
                                    j + 1
                                };
                                assert(s[y] == x);
                                assert(s[i as int] == k@);
                            }
                            if s.contains(x) && x != k@ {
                                let y = choose|y: int| 0 <= y < s.len() && s[y] == x;
                                let j = if y < i {
                                    y
                                } else {
                                    y - 1
                                };
                                assert(t[j] == x);
                            }
                        }
                    }
                }
                self.items = items;
                true
            },
            None => {
                assert(self@.remove(k@) =~= self@);
                false
            },
        }
    }

    /// Adds every member of another set.
    pub fn extend(&mut self, other: &KeySet<K>)
        ensures
            final(self)@ == old(self)@.union(other@),
    {
        let n: usize = other.len();
        let mut i: usize = 0;
        assert(other.members().subrange(0, 0).to_set() =~= Set::<K::V>::empty());
        assert(old(self)@.union(Set::<K::V>::empty()) =~= old(self)@);
        while i < n
            invariant
                i <= n,
                n == other.members().len(),
                self@ == old(self)@.union(other.members().subrange(0, i as int).to_set()),
            decreases n - i,
        {
            let k = other.member(i);
            self.insert(k.duplicate());
            i += 1;
            proof {
                let a = other.members().subrange(0, i - 1);
                let b = other.members().subrange(0, i as int);
                assert(b =~= a.push(k@));
                assert forall|x: K::V| b.contains(x) <==> a.contains(x) || x == k@ by {
                    if a.contains(x) {
                        let j = choose|j: int| 0 <= j < a.len() && a[j] == x;
                        assert(b[j] == x);
                    }
                    assert(b[i - 1] == k@);
                }
                assert(self@ =~= old(self)@.union(b.to_set()));
            }
        }
        assert(other.members().subrange(0, i as int) =~= other.members());
        let _m = other.len();
    }

    /// A set with the same members.
    pub fn duplicate(&self) -> (r: Self)
        ensures
            r@ == self@,
    {
        let mut r: KeySet<K> = KeySet::new();
        r.extend(self);
        assert(Set::<K::V>::empty().union(self@) =~= self@);
        r
    }
}

impl<K: TableKey> Default for KeySet<K> {
    fn default() -> (r: Self)
        ensures
            r@ == Set::<K::V>::empty(),
    {
        KeySet::new()
    }
}

impl<K: TableKey> Clone for KeySet<K> {
    fn clone(&self) -> (r: Self)
        ensures
            r@ == self@,
    {
        self.duplicate()
    }
}

/// The members of a set of numbers, each once.
pub fn member_list(s: &KeySet<u32>) -> (r: Vec<u32>)
    ensures
        r@.to_set() == s@,
        r@.no_duplicates(),
{
    let mut out: Vec<u32> = Vec::new();
    let n: usize = s.len();
    let mut i: usize = 0;
    while i < n
        invariant
            n == s.members().len(),
            i <= n,
            out@ == s.members().subrange(0, i as int),
        decreases n - i,
    {
        out.push(*s.member(i));
        i = i + 1;
        assert(out@ =~= s.members().subrange(0, i as int));
    }
    assert(out@ =~= s.members());
    assert(out@.to_set() =~= s@);
    out
}

} // verus!
