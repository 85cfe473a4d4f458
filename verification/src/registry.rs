use vstd::prelude::*;

verus! {

/// A key that can be compared by its view.
pub trait MapKey: View + Sized {
    fn same_key(&self, other: &Self) -> (r: bool)
        ensures
            r == (self@ == other@),
    ;
}

impl MapKey for i64 {
    fn same_key(&self, other: &i64) -> (r: bool) {
        *self == *other
    }
}

impl MapKey for String {
    fn same_key(&self, other: &String) -> (r: bool) {
        *self == *other
    }
}

/// Values kept under keys, as a list of `(key, value)` pairs in which no key
/// occurs twice. Seen as a map from the keys' views to the values.
///
/// The registries keep callbacks here rather than in a `HashMap` because
/// calling a stored `FnMut` needs a `&mut` to each value in turn, and vstd
/// specifies no `values_mut`, `iter_mut` or `get_mut` of `HashMap` (nor of
/// `BTreeMap`); the device maps are keyed by `String`, for which the
/// specified `HashMap` operations prove little. The list also fixes the
/// order in which callbacks are called (`ids`), which a `HashMap` leaves to
/// its hasher.
pub struct KeyedMap<K, V> {
    keys: Vec<K>,
    vals: Vec<V>,
}

/// Values kept under integer ids.
pub type IdMap<V> = KeyedMap<i64, V>;

/// The position of `k` in `keys`, where it occurs.
pub open spec fn position_of<A>(keys: Seq<A>, k: A) -> int {
    keys.index_of(k)
}

/// In a list without repeats, the position of the item at `i` is `i`.
pub proof fn lemma_position_unique<A>(keys: Seq<A>, i: int)
    requires
        keys.no_duplicates(),
        0 <= i < keys.len(),
    ensures
        position_of(keys, keys[i]) == i,
{
    let k = keys[i];
    assert(keys.contains(k));
    let j = keys.index_of(k);
    assert(0 <= j < keys.len() && keys[j] == k);
}

/// The map that pairs each key with the value at its position.
pub open spec fn map_of<A, V>(keys: Seq<A>, vals: Seq<V>) -> Map<A, V> {
    Map::new(|k: A| keys.contains(k), |k: A| vals[position_of(keys, k)])
}

/// The list with every occurrence of `k` taken out.
pub open spec fn without<A>(s: Seq<A>, k: A) -> Seq<A> {
    s.filter(|x: A| x != k)
}

/// The views of a list of keys.
pub open spec fn views_of<K: View>(keys: Seq<K>) -> Seq<K::V> {
    keys.map_values(|k: K| k@)
}

impl<K: MapKey, V> View for KeyedMap<K, V> {
    type V = Map<K::V, V>;

    closed spec fn view(&self) -> Map<K::V, V> {
        map_of(views_of(self.keys@), self.vals@)
    }
}

impl<K: MapKey, V> KeyedMap<K, V> {
    /// The keys' views, in the order in which the entries are visited.
    pub closed spec fn ids(&self) -> Seq<K::V> {
        views_of(self.keys@)
    }

    /// The values, in the order of `ids`.
    pub closed spec fn values(&self) -> Seq<V> {
        self.vals@
    }

    /// Each key has one value, and no key occurs twice.
    pub closed spec fn wf(&self) -> bool {
        &&& self.keys@.len() == self.vals@.len()
        &&& self.ids().no_duplicates()
    }

    /// The map read through `ids` and `values`: the value under the key at
    /// position `i` is the value at position `i`.
    pub proof fn lemma_view_by_position(&self, i: int)
        requires
            self.wf(),
            0 <= i < self.ids().len(),
        ensures
            self@.contains_key(self.ids()[i]),
            self@[self.ids()[i]] == self.values()[i],
            self.values().len() == self.ids().len(),
    {
        lemma_position_unique(self.ids(), i);
    }

    /// The keys of the map are those listed in `ids`.
    pub proof fn lemma_dom_is_ids(&self)
        requires
            self.wf(),
        ensures
            forall|k: K::V| #[trigger] self@.contains_key(k) <==> self.ids().contains(k),
            self.ids().no_duplicates(),
            self.values().len() == self.ids().len(),
    {
    }

    pub fn new() -> (r: Self)
        ensures
            r.wf(),
            r@ == Map::<K::V, V>::empty(),
            r.ids() == Seq::<K::V>::empty(),
    {
        let r = KeyedMap { keys: Vec::new(), vals: Vec::new() };
        assert(r.ids() =~= Seq::<K::V>::empty());
        assert(r@ =~= Map::<K::V, V>::empty());
        r
    }

    /// Number of entries.
    pub fn len(&self) -> (n: usize)
        requires
            self.wf(),
        ensures
            n == self.ids().len(),
            n == self@.dom().len(),
    {
        proof {
            self.lemma_dom_len();
        }
        self.keys.len()
    }

    proof fn lemma_dom_len(&self)
        requires
            self.wf(),
        ensures
            self@.dom().len() == self.ids().len(),
            self@.dom().finite(),
    {
        assert(self@.dom() =~= self.ids().to_set());
        self.ids().unique_seq_to_set();
    }

    /// Where `k` is in the list, if it is.
    pub fn find(&self, k: &K) -> (r: Option<usize>)
        requires
            self.wf(),
        ensures
            match r {
                Some(i) => i < self.ids().len() && self.ids()[i as int] == k@,
                None => !self.ids().contains(k@),
            },
            (r is Some) == self@.contains_key(k@),
    {
        let mut i: usize = 0;
        while i < self.keys.len()
            invariant
                i <= self.keys@.len(),
                forall|j: int| 0 <= j < i ==> self.ids()[j] != k@,
            decreases self.keys@.len() - i,
        {
            if self.keys[i].same_key(k) {
                return Some(i);
            }
            i += 1;
        }
        None
    }

    pub fn contains_key(&self, k: &K) -> (r: bool)
        requires
            self.wf(),
        ensures
            r == self@.contains_key(k@),
    {
        self.find(k).is_some()
    }

    /// The value under `k`, if any.
    pub fn get(&self, k: &K) -> (r: Option<&V>)
        requires
            self.wf(),
        ensures
            r == if self@.contains_key(k@) {
                Some(&self@[k@])
            } else {
                None
            },
    {
        match self.find(k) {
            Some(i) => {
                proof {
                    lemma_position_unique(self.ids(), i as int);
                }
                Some(&self.vals[i])
            },
            None => None,
        }
    }

    /// Puts `v` under `k`, replacing the value that was there. A new key goes
    /// to the end of the list.
    pub fn insert(&mut self, k: K, v: V)
        requires
            old(self).wf(),
        ensures
            final(self).wf(),
            final(self)@ == old(self)@.insert(k@, v),
            old(self)@.contains_key(k@) ==> final(self).ids() == old(self).ids(),
            !old(self)@.contains_key(k@) ==> final(self).ids() == old(self).ids().push(k@),
    {
        match self.find(&k) {
            Some(i) => {
                let ghost keys = self.ids();
                let ghost vals = self.vals@;
                self.vals.set(i, v);
                proof {
                    lemma_value_update(keys, vals, i as int, v);
                }
            },
            None => {
                let ghost kv = k@;
                self.keys.push(k);
                self.vals.push(v);
                proof {
                    let o = old(self).ids();
                    let n = o.len() as int;
                    assert(self.ids() =~= o.push(kv));
                    let ks = self.ids();
                    assert(ks.no_duplicates()) by {
                        assert forall|a: int, b: int|
                            0 <= a < ks.len() && 0 <= b < ks.len() && a != b
                            implies ks[a] != ks[b] by {
                            if a == n {
                                assert(o[b] == ks[b]);
                                assert(o.contains(o[b]));
                            } else if b == n {
                                assert(o[a] == ks[a]);
                                assert(o.contains(o[a]));
                            }
                        }
                    }
                    assert forall|x: K::V| #[trigger] ks.contains(x) implies self.vals@[position_of(ks, x)]
                        == old(self)@.insert(kv, v)[x] by {
                        let j = ks.index_of(x);
                        lemma_position_unique(ks, j);
                        if j < n {
                            lemma_position_unique(o, j);
                            assert(o[j] == x);
                        } else {
                            assert(x == kv);
                        }
                    }
                    assert forall|x: K::V| #[trigger] ks.contains(x) <==> old(self)@.insert(kv, v).contains_key(x) by {
                        if ks.contains(x) && x != kv {
                            let j = ks.index_of(x);
                            assert(j < n);
                            assert(o[j] == x);
                        }
                        if o.contains(x) {
                            let j = o.index_of(x);
                            assert(ks[j] == x);
                        }
                        if x == kv {
                            assert(ks[n] == kv);
                        }
                    }
                    assert(self@ =~= old(self)@.insert(kv, v));
                }
            },
        }
    }

    /// Takes out the value under `k`, if there is one; the other entries
    /// keep their order.
    pub fn remove(&mut self, k: &K) -> (r: Option<V>)
        requires
            old(self).wf(),
        ensures
            final(self).wf(),
            final(self)@ == old(self)@.remove(k@),
            r == if old(self)@.contains_key(k@) {
                Some(old(self)@[k@])
            } else {
                None
            },
            final(self).ids() == without(old(self).ids(), k@),
    {
        match self.find(k) {
            Some(i) => {
                proof {
                    lemma_position_unique(self.ids(), i as int);
                }
                self.keys.remove(i);
                let v = self.vals.remove(i);
                proof {
                    let o = old(self).ids();
                    let ni = i as int;
                    let kv = k@;
                    assert(self.ids() =~= o.remove(ni));
                    let ks = self.ids();
                    assert(ks.no_duplicates()) by {
                        assert forall|a: int, b: int|
                            0 <= a < ks.len() && 0 <= b < ks.len() && a != b
                            implies ks[a] != ks[b] by {
                            let oa = if a < ni { a } else { a + 1 };
                            let ob = if b < ni { b } else { b + 1 };
                            assert(ks[a] == o[oa]);
                            assert(ks[b] == o[ob]);
                        }
                    }
                    assert forall|x: K::V| #[trigger] ks.contains(x) <==> old(self)@.remove(kv).contains_key(x) by {
                        if ks.contains(x) {
                            let j = ks.index_of(x);
                            let oj = if j < ni { j } else { j + 1 };
                            assert(o[oj] == x);
                            assert(oj != ni);
                        }
                        if old(self)@.remove(kv).contains_key(x) {
                            let j = o.index_of(x);
                            assert(j != ni);
                            let nj = if j < ni { j } else { j - 1 };
                            assert(ks[nj] == x);
                        }
                    }
                    assert forall|x: K::V| #[trigger] ks.contains(x) implies self.vals@[position_of(ks, x)]
                        == old(self)@.remove(kv)[x] by {
                        let j = ks.index_of(x);
                        let oj = if j < ni { j } else { j + 1 };
                        assert(o[oj] == x);
                        lemma_position_unique(o, oj);
                    }
                    assert(self@ =~= old(self)@.remove(kv));
                    lemma_remove_is_filter(o, ni, kv);
                }
                Some(v)
            },
            None => {
                proof {
                    assert(old(self)@.remove(k@) =~= old(self)@);
                    lemma_filter_absent(self.ids(), k@);
                }
                None
            },
        }
    }

    /// The key at position `i` of the list.
    pub fn key_at(&self, i: usize) -> (k: &K)
        requires
            self.wf(),
            i < self.ids().len(),
        ensures
            k@ == self.ids()[i as int],
    {
        &self.keys[i]
    }

    /// The value at position `i` of the list.
    pub fn value_at(&self, i: usize) -> (r: &V)
        requires
            self.wf(),
            i < self.ids().len(),
        ensures
            *r == self.values()[i as int],
            *r == self@[self.ids()[i as int]],
    {
        proof {
            lemma_position_unique(self.ids(), i as int);
        }
        &self.vals[i]
    }

    /// The value at position `i` of the list, for update in place.
    pub fn value_at_mut(&mut self, i: usize) -> (r: &mut V)
        requires
            old(self).wf(),
            i < old(self).ids().len(),
        ensures
            *r == old(self).values()[i as int],
            *r == old(self)@[old(self).ids()[i as int]],
            final(self).ids() == old(self).ids(),
            final(self).values() == old(self).values().update(i as int, *final(r)),
            final(self).wf(),
            final(self)@ == old(self)@.insert(old(self).ids()[i as int], *final(r)),
    {
        let ghost keys = self.ids();
        let ghost vals = self.vals@;
        proof {
            lemma_position_unique(keys, i as int);
        }
        let r = &mut self.vals[i];
        proof {
            lemma_value_update(keys, vals, i as int, *final(r));
        }
        r
    }
}

/// Replacing the value at one position replaces the value under that
/// position's key, and nothing else.
proof fn lemma_value_update<A, V>(keys: Seq<A>, vals: Seq<V>, i: int, v: V)
    requires
        keys.no_duplicates(),
        keys.len() == vals.len(),
        0 <= i < keys.len(),
    ensures
        map_of(keys, vals.update(i, v)) == map_of(keys, vals).insert(keys[i], v),
{
    assert forall|x: A| #[trigger] keys.contains(x) implies vals.update(i, v)[position_of(keys, x)]
        == map_of(keys, vals).insert(keys[i], v)[x] by {
        let j = keys.index_of(x);
        lemma_position_unique(keys, j);
        lemma_position_unique(keys, i);
    }
    assert(map_of(keys, vals.update(i, v)) =~= map_of(keys, vals).insert(keys[i], v));
}

/// Filtering out a value that occurs once removes exactly its position.
proof fn lemma_remove_is_filter<A>(s: Seq<A>, i: int, k: A)
    requires
        s.no_duplicates(),
        0 <= i < s.len(),
        s[i] == k,
    ensures
        s.remove(i) == s.filter(|x: A| x != k),
    decreases s.len(),
{
    reveal(Seq::filter);
    let t = s.drop_last();
    assert(t.no_duplicates());
    if i == s.len() - 1 {
        assert(!t.contains(k)) by {
            if t.contains(k) {
                let j = t.index_of(k);
                assert(s[j] == k);
            }
        }
        lemma_filter_absent(t, k);
        assert(t =~= s.remove(i));
    } else {
        assert(t[i] == k);
        lemma_remove_is_filter(t, i, k);
        assert(s.last() != k);
        assert(s.remove(i) =~= t.remove(i).push(s.last()));
    }
}

/// Filtering out a value that does not occur changes nothing.
proof fn lemma_filter_absent<A>(s: Seq<A>, k: A)
    requires
        !s.contains(k),
    ensures
        s.filter(|x: A| x != k) == s,
    decreases s.len(),
{
    reveal(Seq::filter);
    if s.len() > 0 {
        lemma_filter_absent(s.drop_last(), k);
        assert(s.drop_last().push(s.last()) =~= s);
    } else {
        assert(s.filter(|x: A| x != k) =~= s);
    }
}

/// Taking out a value just appended to a list that did not hold it gives
/// back the list.
pub proof fn lemma_without_pushed<A>(s: Seq<A>, k: A)
    requires
        !s.contains(k),
    ensures
        without(s.push(k), k) == s,
{
    reveal(Seq::filter);
    assert(s.push(k).drop_last() =~= s);
    lemma_filter_absent(s, k);
}

} // verus!
