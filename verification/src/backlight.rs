use vstd::prelude::*;
use crate::registry::{lemma_without_pushed, without, IdMap, KeyedMap};

verus! {

/// The backlight callbacks: each under its id with the name of the device
/// it follows and the watch that keeps the device observed; for each device
/// its handle and the ids registered for it; and the last known brightness
/// of each device. Alongside, a record of every call the registry makes
/// to a callback, with the id it is stored under and the level it is told,
/// in the order of the calls.
pub struct BackLight<C, W, D, P> {
    count: i32,
    cbs: IdMap<(String, W, C)>,
    device_map: KeyedMap<String, (D, IdMap<()>)>,
    v: KeyedMap<String, P>,
    told: Ghost<Seq<(i64, P)>>,
}

/// The calls that telling `level` to the callbacks under `ids` makes, in
/// order: one for each id that still has a callback.
pub open spec fn notified<C, P>(ids: Seq<i64>, callbacks: Map<i64, C>, level: P) -> Seq<(i64, P)>
    decreases ids.len(),
{
    if ids.len() == 0 {
        Seq::empty()
    } else {
        let rest = notified(ids.drop_last(), callbacks, level);
        if callbacks.contains_key(ids.last()) {
            rest.push((ids.last(), level))
        } else {
            rest
        }
    }
}

impl<C, W, D, P> BackLight<C, W, D, P> {
    /// The id that the next callback gets.
    pub closed spec fn next_id(&self) -> i32 {
        self.count
    }

    /// For each callback id, the name of its device.
    pub closed spec fn device_of(&self) -> Map<i64, Seq<char>> {
        Map::new(|k: i64| self.cbs@.contains_key(k), |k: i64| self.cbs@[k].0@)
    }

    /// For each callback id, the callback.
    pub closed spec fn callbacks(&self) -> Map<i64, C> {
        Map::new(|k: i64| self.cbs@.contains_key(k), |k: i64| self.cbs@[k].2)
    }

    /// The calls made to the callbacks so far: for each, the id the
    /// callback is stored under and the level it was told.
    pub closed spec fn told(&self) -> Seq<(i64, P)> {
        self.told@
    }

    /// For each callback id, the watch that keeps its device observed.
    pub closed spec fn contexts(&self) -> Map<i64, W> {
        Map::new(|k: i64| self.cbs@.contains_key(k), |k: i64| self.cbs@[k].1)
    }

    /// For each known device, the ids registered for it, in call order.
    pub closed spec fn listeners(&self) -> Map<Seq<char>, Seq<i64>> {
        Map::new(|d: Seq<char>| self.device_map@.contains_key(d), |d: Seq<char>| self.device_map@[d].1.ids())
    }

    /// The device handles, by name.
    pub closed spec fn devices(&self) -> Map<Seq<char>, D> {
        Map::new(|d: Seq<char>| self.device_map@.contains_key(d), |d: Seq<char>| self.device_map@[d].0)
    }

    /// The last known brightness of each device, by name.
    pub closed spec fn levels(&self) -> Map<Seq<char>, P> {
        self.v@
    }

    /// All maps are well formed, and every id listed for a device is one
    /// that was handed out.
    pub closed spec fn wf(&self) -> bool {
        &&& self.cbs.wf()
        &&& self.device_map.wf()
        &&& self.v.wf()
        &&& self.count >= 0
        &&& forall|k: i64| #[trigger] self.cbs@.contains_key(k) ==> 0 <= k <= self.count
        &&& forall|d: Seq<char>| #[trigger] self.device_map@.contains_key(d) ==> {
            &&& self.device_map@[d].1.wf()
            &&& forall|k: i64| #[trigger] self.device_map@[d].1@.contains_key(k) ==> 0 <= k < self.count
        }
        &&& forall|d: Seq<char>, k: i64|
            self.device_map@.contains_key(d) && #[trigger] self.device_map@[d].1@.contains_key(k)
                && #[trigger] self.cbs@.contains_key(k) ==> self.cbs@[k].0@ == d
    }

    pub fn new() -> (r: Self)
        ensures
            r.wf(),
            r.next_id() == 0,
            r.callbacks() == Map::<i64, C>::empty(),
            r.device_of() == Map::<i64, Seq<char>>::empty(),
            r.contexts() == Map::<i64, W>::empty(),
            r.told() == Seq::<(i64, P)>::empty(),
            r.listeners() == Map::<Seq<char>, Seq<i64>>::empty(),
            r.levels() == Map::<Seq<char>, P>::empty(),
    {
        let r = BackLight {
            count: 0,
            cbs: IdMap::new(),
            device_map: KeyedMap::new(),
            v: KeyedMap::new(),
            told: Ghost(Seq::empty()),
        };
        assert(r.callbacks() =~= Map::<i64, C>::empty());
        assert(r.device_of() =~= Map::<i64, Seq<char>>::empty());
        assert(r.contexts() =~= Map::<i64, W>::empty());
        assert(r.listeners() =~= Map::<Seq<char>, Seq<i64>>::empty());
        r
    }

    /// The id that the next callback gets.
    pub fn next_key(&self) -> (r: i32)
        ensures
            r == self.next_id(),
    {
        self.count
    }

    /// Whether a handle for the device named `name` is held.
    pub fn has_device(&self, name: &String) -> (r: bool)
        requires
            self.wf(),
        ensures
            r == self.devices().contains_key(name@),
    {
        self.device_map.contains_key(name)
    }

    /// The handle of the device named `name`, if held.
    pub fn device(&self, name: &String) -> (r: Option<&D>)
        requires
            self.wf(),
        ensures
            r == if self.devices().contains_key(name@) {
                Some(&self.devices()[name@])
            } else {
                None
            },
    {
        match self.device_map.get(name) {
            Some(e) => Some(&e.0),
            None => None,
        }
    }

    /// Records `level` as the brightness of the device named `name`.
    pub fn update_v(&mut self, name: String, level: P)
        requires
            old(self).wf(),
        ensures
            final(self).wf(),
            final(self).levels() == old(self).levels().insert(name@, level),
            final(self).callbacks() == old(self).callbacks(),
            final(self).device_of() == old(self).device_of(),
            final(self).contexts() == old(self).contexts(),
            final(self).told() == old(self).told(),
            final(self).listeners() == old(self).listeners(),
            final(self).devices() == old(self).devices(),
            final(self).next_id() == old(self).next_id(),
    {
        self.v.insert(name, level);
    }

    /// Registers `cb` for the device named `name`, kept observed by `ctx`,
    /// under the id `next_id()`. `new_device` is the outcome of opening the
    /// device, given exactly when no handle for it is held. When opening
    /// failed, the callback stays stored under that id, the id is not used
    /// up, and the error is returned. Otherwise `cb` is called with the
    /// device's last known brightness, the id joins the device's listeners,
    /// and the id is returned.
    pub fn add_cb(&mut self, cb: C, name: String, ctx: W, new_device: Option<Result<D, String>>) -> (r: Result<i32, String>) where
        C: FnMut(P),
        P: Copy,
        requires
            old(self).wf(),
            old(self).next_id() < i32::MAX,
            new_device is Some <==> !old(self).devices().contains_key(name@),
            !(new_device is Some && new_device.unwrap() is Err) ==> old(self).levels().contains_key(name@),
            forall|p: P| call_requires(cb, (p,)),
        ensures
            final(self).wf(),
            final(self).callbacks() == old(self).callbacks().insert(old(self).next_id() as i64, cb),
            final(self).device_of() == old(self).device_of().insert(old(self).next_id() as i64, name@),
            final(self).contexts() == old(self).contexts().insert(old(self).next_id() as i64, ctx),
            final(self).told() == if r is Ok {
                old(self).told().push((old(self).next_id() as i64, old(self).levels()[name@]))
            } else {
                old(self).told()
            },
            final(self).levels() == old(self).levels(),
            match new_device {
                Some(Err(e)) => {
                    &&& r == Err::<i32, String>(e)
                    &&& final(self).next_id() == old(self).next_id()
                    &&& final(self).devices() == old(self).devices()
                    &&& final(self).listeners() == old(self).listeners()
                },
                Some(Ok(d)) => {
                    &&& r == Ok::<i32, String>(old(self).next_id())
                    &&& final(self).next_id() == old(self).next_id() + 1
                    &&& final(self).devices() == old(self).devices().insert(name@, d)
                    &&& final(self).listeners() == old(self).listeners().insert(
                        name@,
                        seq![old(self).next_id() as i64],
                    )
                },
                None => {
                    &&& r == Ok::<i32, String>(old(self).next_id())
                    &&& final(self).next_id() == old(self).next_id() + 1
                    &&& final(self).devices() == old(self).devices()
                    &&& final(self).listeners() == old(self).listeners().insert(
                        name@,
                        old(self).listeners()[name@].push(old(self).next_id() as i64),
                    )
                },
            },
            r is Ok ==> call_ensures(cb, (old(self).levels()[name@],), ()),
    {
        let mut cb = cb;
        let key = self.count;
        let ghost nv = name@;
        let created = match new_device {
            Some(Err(e)) => {
                self.cbs.insert(key as i64, (name, ctx, cb));
                proof {
                    assert(self.callbacks() =~= old(self).callbacks().insert(key as i64, cb));
                    assert(self.device_of() =~= old(self).device_of().insert(key as i64, nv));
                    assert(self.contexts() =~= old(self).contexts().insert(key as i64, ctx));
                    assert(self.listeners() =~= old(self).listeners());
                    assert(self.devices() =~= old(self).devices());
                }
                return Err(e);
            },
            Some(Ok(d)) => Some(d),
            None => None,
        };
        let level = *self.v.get(&name).unwrap();
        cb(level);
        self.told = Ghost(self.told@.push((key as i64, level)));
        let ghost key_i = key as i64;
        match created {
            Some(d) => {
                let mut ids: IdMap<()> = IdMap::new();
                ids.insert(key as i64, ());
                self.device_map.insert(name.clone(), (d, ids));
            },
            None => {
                let mut entry = self.device_map.remove(&name).unwrap();
                proof {
                    assert(entry.1.wf());
                    assert(!entry.1@.contains_key(key_i));
                }
                entry.1.insert(key as i64, ());
                self.device_map.insert(name.clone(), entry);
            },
        }
        self.cbs.insert(key as i64, (name, ctx, cb));
        self.count += 1;
        proof {
            assert forall|d: Seq<char>| #[trigger] self.device_map@.contains_key(d) implies {
                &&& self.device_map@[d].1.wf()
                &&& forall|k: i64| #[trigger] self.device_map@[d].1@.contains_key(k) ==> 0 <= k < self.count
            } by {
                if d != nv {
                    assert(old(self).device_map@.contains_key(d));
                }
            }
            assert(self.callbacks() =~= old(self).callbacks().insert(key_i, cb));
            assert(self.device_of() =~= old(self).device_of().insert(key_i, nv));
            assert(self.contexts() =~= old(self).contexts().insert(key_i, ctx));
            if old(self).devices().contains_key(nv) {
                assert(self.devices() =~= old(self).devices());
                assert(self.listeners() =~= old(self).listeners().insert(
                    nv,
                    old(self).listeners()[nv].push(key_i),
                ));
            } else {
                assert(self.listeners() =~= old(self).listeners().insert(nv, seq![key_i]));
            }
        }
        Ok(key)
    }

    /// Drops the callback under `key`, with its watch, and takes its id off
    /// its device's listeners. The dropped entry is handed back.
    pub fn remove_cb(&mut self, key: i32) -> (r: Option<(String, W, C)>)
        requires
            old(self).wf(),
        ensures
            final(self).wf(),
            final(self).callbacks() == old(self).callbacks().remove(key as i64),
            final(self).device_of() == old(self).device_of().remove(key as i64),
            final(self).contexts() == old(self).contexts().remove(key as i64),
            final(self).told() == old(self).told(),
            final(self).devices() == old(self).devices(),
            final(self).levels() == old(self).levels(),
            final(self).next_id() == old(self).next_id(),
            match r {
                Some(e) => {
                    &&& old(self).callbacks().contains_key(key as i64)
                    &&& e.0@ == old(self).device_of()[key as i64]
                    &&& e.1 == old(self).contexts()[key as i64]
                    &&& e.2 == old(self).callbacks()[key as i64]
                    &&& final(self).listeners() == if old(self).listeners().contains_key(e.0@) {
                        old(self).listeners().insert(
                            e.0@,
                            without(old(self).listeners()[e.0@], key as i64),
                        )
                    } else {
                        old(self).listeners()
                    }
                },
                None => {
                    &&& !old(self).callbacks().contains_key(key as i64)
                    &&& final(self).listeners() == old(self).listeners()
                },
            },
    {
        let removed = self.cbs.remove(&(key as i64));
        match removed {
            Some(e) => {
                let ghost nv = e.0@;
                if self.device_map.contains_key(&e.0) {
                    let mut entry = self.device_map.remove(&e.0).unwrap();
                    entry.1.remove(&(key as i64));
                    self.device_map.insert(e.0.clone(), entry);
                    proof {
                        assert forall|d: Seq<char>| #[trigger] self.device_map@.contains_key(d) implies {
                            &&& self.device_map@[d].1.wf()
                            &&& forall|k: i64| #[trigger] self.device_map@[d].1@.contains_key(k) ==> 0 <= k < self.count
                        } by {
                            if d != nv {
                                assert(old(self).device_map@.contains_key(d));
                            }
                        }
                        assert(self.listeners() =~= old(self).listeners().insert(
                            nv,
                            without(old(self).listeners()[nv], key as i64),
                        ));
                        assert(self.devices() =~= old(self).devices());
                    }
                } else {
                    proof {
                        assert(self.listeners() =~= old(self).listeners());
                        assert(self.devices() =~= old(self).devices());
                    }
                }
                proof {
                    assert(self.callbacks() =~= old(self).callbacks().remove(key as i64));
                    assert(self.device_of() =~= old(self).device_of().remove(key as i64));
                    assert(self.contexts() =~= old(self).contexts().remove(key as i64));
                }
                Some(e)
            },
            None => {
                proof {
                    assert(self.callbacks() =~= old(self).callbacks().remove(key as i64));
                    assert(self.device_of() =~= old(self).device_of().remove(key as i64));
                    assert(self.contexts() =~= old(self).contexts().remove(key as i64));
                    assert(self.listeners() =~= old(self).listeners());
                    assert(self.devices() =~= old(self).devices());
                }
                None
            },
        }
    }

    /// The handle of the device named `name`, for refreshing it.
    pub fn device_mut(&mut self, name: &String) -> (r: &mut D)
        requires
            old(self).wf(),
            old(self).devices().contains_key(name@),
        ensures
            *r == old(self).devices()[name@],
            final(self).wf(),
            final(self).devices() == old(self).devices().insert(name@, *final(r)),
            final(self).callbacks() == old(self).callbacks(),
            final(self).device_of() == old(self).device_of(),
            final(self).contexts() == old(self).contexts(),
            final(self).told() == old(self).told(),
            final(self).listeners() == old(self).listeners(),
            final(self).levels() == old(self).levels(),
            final(self).next_id() == old(self).next_id(),
    {
        let i = self.device_map.find(name).unwrap();
        let ghost before = self.device_map@;
        proof {
            self.device_map.lemma_view_by_position(i as int);
        }
        let e = self.device_map.value_at_mut(i);
        &mut e.0
    }

    /// Tells the callbacks registered for the device named `name`, in
    /// order, its brightness `level` (when a handle for it is held); ids
    /// whose callback was dropped are passed over.
    pub fn call(&mut self, name: &String, level: P) where C: FnMut(P), P: Copy
        requires
            old(self).wf(),
            forall|k: i64, p: P| old(self).callbacks().contains_key(k) ==> #[trigger] call_requires(
                old(self).callbacks()[k],
                (p,),
            ),
        ensures
            final(self).wf(),
            final(self).callbacks() == old(self).callbacks(),
            final(self).device_of() == old(self).device_of(),
            final(self).contexts() == old(self).contexts(),
            final(self).told() == old(self).told() + if old(self).listeners().contains_key(name@) {
                notified(old(self).listeners()[name@], old(self).callbacks(), level)
            } else {
                Seq::empty()
            },
            final(self).listeners() == old(self).listeners(),
            final(self).devices() == old(self).devices(),
            final(self).levels() == old(self).levels(),
            final(self).next_id() == old(self).next_id(),
            forall|k: i64|
                old(self).listeners().contains_key(name@) && old(self).listeners()[name@].contains(k)
                    && #[trigger] old(self).callbacks().contains_key(k) ==> call_ensures(
                    old(self).callbacks()[k],
                    (level,),
                    (),
                ),
    {
        let entry = match self.device_map.get(name) {
            Some(e) => e,
            None => {
                proof {
                    assert(self.told() =~= old(self).told() + Seq::<(i64, P)>::empty());
                }
                return ;
            },
        };
        let ids = &entry.1;
        let n = ids.len();
        let mut i: usize = 0;
        while i < n
            invariant
                self.wf(),
                self.device_map@.contains_key(name@),
                *ids == self.device_map@[name@].1,
                ids.wf(),
                n == ids.ids().len(),
                i <= n,
                self.callbacks() == old(self).callbacks(),
                self.device_of() == old(self).device_of(),
                self.contexts() == old(self).contexts(),
                self.told() == old(self).told() + notified(ids.ids().take(i as int), self.callbacks(), level),
                self.listeners() == old(self).listeners(),
                self.devices() == old(self).devices(),
                self.levels() == old(self).levels(),
                self.next_id() == old(self).next_id(),
                forall|k: i64, p: P| self.callbacks().contains_key(k) ==> #[trigger] call_requires(
                    self.callbacks()[k],
                    (p,),
                ),
                forall|j: int| 0 <= j < i && self.callbacks().contains_key(#[trigger] ids.ids()[j])
                    ==> call_ensures(self.callbacks()[ids.ids()[j]], (level,), ()),
            decreases n - i,
        {
            let id = *ids.key_at(i);
            match self.cbs.find(&id) {
                Some(j) => {
                    proof {
                        self.cbs.lemma_view_by_position(j as int);
                        assert(self.callbacks().contains_key(id));
                        assert(self.callbacks()[id] == self.cbs@[id].2);
                    }
                    let e = self.cbs.value_at_mut(j);
                    (e.2)(level);
                    self.told = Ghost(self.told@.push((id, level)));
                    proof {
                        assert(self.callbacks() =~= old(self).callbacks());
                        assert(self.device_of() =~= old(self).device_of());
                        assert(self.contexts() =~= old(self).contexts());
                    }
                },
                None => {},
            }
            proof {
                let ks = ids.ids();
                assert(ks.take(i + 1).drop_last() =~= ks.take(i as int));
                assert(ks.take(i + 1).last() == ks[i as int]);
                assert(self.told() =~= old(self).told() + notified(ks.take(i + 1), self.callbacks(), level));
            }
            i += 1;
        }
        proof {
            assert(ids.ids().take(n as int) =~= ids.ids());
            assert(old(self).listeners()[name@] == ids.ids());
            assert(old(self).listeners().contains_key(name@));
            assert(self.told() == old(self).told() + notified(ids.ids(), old(self).callbacks(), level));
            assert forall|k: i64|
                old(self).listeners().contains_key(name@) && old(self).listeners()[name@].contains(k)
                    && #[trigger] old(self).callbacks().contains_key(k) implies call_ensures(
                    old(self).callbacks()[k],
                    (level,),
                    (),
                ) by {
                let j = ids.ids().index_of(k);
                assert(self.callbacks().contains_key(ids.ids()[j]));
            }
        }
    }
}

/// The calls that telling the callbacks under `ids` makes go only to ids
/// of the list that have a callback, each told `level`, and reach every
/// such id; with no id listed twice, no callback is called twice.
pub proof fn lemma_notified_exactly<C, P>(ids: Seq<i64>, callbacks: Map<i64, C>, level: P)
    ensures
        notified(ids, callbacks, level).len() <= ids.len(),
        forall|j: int| 0 <= j < notified(ids, callbacks, level).len() ==> {
            &&& ids.contains(#[trigger] notified(ids, callbacks, level)[j].0)
            &&& callbacks.contains_key(notified(ids, callbacks, level)[j].0)
            &&& notified(ids, callbacks, level)[j].1 == level
        },
        forall|k: i64| ids.contains(k) && callbacks.contains_key(k) ==> exists|j: int|
            0 <= j < notified(ids, callbacks, level).len() && #[trigger] notified(ids, callbacks, level)[j].0 == k,
        ids.no_duplicates() ==> forall|j1: int, j2: int|
            0 <= j1 < j2 < notified(ids, callbacks, level).len() ==> #[trigger] notified(ids, callbacks, level)[j1].0
                != #[trigger] notified(ids, callbacks, level)[j2].0,
    decreases ids.len(),
{
    if ids.len() > 0 {
        let front = ids.drop_last();
        let last = ids.last();
        lemma_notified_exactly(front, callbacks, level);
        let rest = notified(front, callbacks, level);
        let t = notified(ids, callbacks, level);
        assert forall|j: int| 0 <= j < t.len() implies {
            &&& ids.contains(#[trigger] t[j].0)
            &&& callbacks.contains_key(t[j].0)
            &&& t[j].1 == level
        } by {
            if j < rest.len() {
                assert(t[j] == rest[j]);
                let i = choose|i: int| 0 <= i < front.len() && front[i] == rest[j].0;
                assert(ids[i] == front[i]);
            } else {
                assert(ids[ids.len() - 1] == last);
            }
        }
        assert forall|k: i64| ids.contains(k) && callbacks.contains_key(k) implies exists|j: int|
            0 <= j < t.len() && #[trigger] t[j].0 == k by {
            let i = choose|i: int| 0 <= i < ids.len() && ids[i] == k;
            if i < ids.len() - 1 {
                assert(front[i] == k);
                assert(front.contains(k));
                let j = choose|j: int| 0 <= j < rest.len() && #[trigger] rest[j].0 == k;
                assert(t[j] == rest[j]);
            } else {
                assert(t[rest.len() as int].0 == k);
            }
        }
        if ids.no_duplicates() {
            assert(front.no_duplicates()) by {
                assert forall|a: int, b: int| 0 <= a < front.len() && 0 <= b < front.len() && a != b
                    implies front[a] != front[b] by {
                    assert(front[a] == ids[a] && front[b] == ids[b]);
                }
            }
            assert forall|j1: int, j2: int| 0 <= j1 < j2 < t.len() implies #[trigger] t[j1].0 != #[trigger] t[j2].0 by {
                assert(t[j1] == rest[j1]);
                if j2 < rest.len() {
                    assert(t[j2] == rest[j2]);
                } else {
                    assert(t[j2].0 == last);
                    let i = choose|i: int| 0 <= i < front.len() && front[i] == rest[j1].0;
                    assert(ids[i] == front[i] && ids[ids.len() - 1] == last);
                }
            }
        }
    }
}

/// `call(name, level)` calls only callbacks registered for the device
/// `name`: each call it records is of a callback stored under an id listed
/// for `name`, registered with that device, and told `level`; it calls
/// every callback listed for `name` exactly once, and no other callback.
pub proof fn lemma_call_tells_own_device_only<C, W, D, P>(bl: BackLight<C, W, D, P>, name: Seq<char>, level: P)
    requires
        bl.wf(),
        bl.listeners().contains_key(name),
    ensures
        ({
            let t = notified(bl.listeners()[name], bl.callbacks(), level);
            &&& forall|j: int| 0 <= j < t.len() ==> {
                &&& bl.callbacks().contains_key(#[trigger] t[j].0)
                &&& bl.listeners()[name].contains(t[j].0)
                &&& bl.device_of()[t[j].0] == name
                &&& t[j].1 == level
            }
            &&& forall|k: i64| bl.callbacks().contains_key(k) && bl.device_of()[k] != name ==> forall|j: int|
                0 <= j < t.len() ==> #[trigger] t[j].0 != k
            &&& forall|k: i64| bl.listeners()[name].contains(k) && bl.callbacks().contains_key(k) ==> exists|j: int|
                0 <= j < t.len() && #[trigger] t[j].0 == k
            &&& forall|j1: int, j2: int| 0 <= j1 < j2 < t.len() ==> #[trigger] t[j1].0 != #[trigger] t[j2].0
        }),
{
    let ids = bl.listeners()[name];
    let t = notified(ids, bl.callbacks(), level);
    lemma_notified_exactly(ids, bl.callbacks(), level);
    let m = bl.device_map@[name].1;
    assert(ids == m.ids());
    m.lemma_dom_is_ids();
    assert forall|j: int| 0 <= j < t.len() implies {
        &&& bl.callbacks().contains_key(#[trigger] t[j].0)
        &&& bl.listeners()[name].contains(t[j].0)
        &&& bl.device_of()[t[j].0] == name
        &&& t[j].1 == level
    } by {
        let k = t[j].0;
        let i = choose|i: int| 0 <= i < ids.len() && ids[i] == k;
        m.lemma_view_by_position(i);
        assert(bl.device_map@[name].1@.contains_key(k));
        assert(bl.cbs@.contains_key(k));
    }
}

/// Removing the callback that a successful registration added gives back
/// the callbacks, their devices, their watches and the device's listeners
/// as they were,
/// when no failed registration left a callback under the next id: the id
/// was not listed for any device, and it was appended to its device's list.
pub proof fn lemma_remove_undoes_add<C, W, D, P>(bl: BackLight<C, W, D, P>, cb: C, ctx: W, name: Seq<char>)
    requires
        bl.wf(),
        bl.listeners().contains_key(name),
        !bl.callbacks().contains_key(bl.next_id() as i64),
    ensures
        ({
            let k = bl.next_id() as i64;
            &&& bl.callbacks().insert(k, cb).remove(k) == bl.callbacks()
            &&& bl.device_of().insert(k, name).remove(k) == bl.device_of()
            &&& bl.contexts().insert(k, ctx).remove(k) == bl.contexts()
            &&& without(bl.listeners()[name].push(k), k) == bl.listeners()[name]
        }),
{
    let k = bl.next_id() as i64;
    assert(bl.callbacks().insert(k, cb).remove(k) =~= bl.callbacks());
    assert(bl.device_of().insert(k, name).remove(k) =~= bl.device_of());
    assert(bl.contexts().insert(k, ctx).remove(k) =~= bl.contexts());
    assert(!bl.listeners()[name].contains(k)) by {
        if bl.listeners()[name].contains(k) {
            let i = bl.listeners()[name].index_of(k);
            bl.device_map@[name].1.lemma_view_by_position(i);
        }
    }
    lemma_without_pushed(bl.listeners()[name], k);
}

/// Starts the backlight state: no callbacks, devices or levels.
pub fn init_bl<C, W, D, P>(bl: &mut Option<BackLight<C, W, D, P>>)
    ensures
        *final(bl) is Some,
        final(bl).unwrap().wf(),
        final(bl).unwrap().next_id() == 0,
        final(bl).unwrap().callbacks() == Map::<i64, C>::empty(),
        final(bl).unwrap().contexts() == Map::<i64, W>::empty(),
        final(bl).unwrap().told() == Seq::<(i64, P)>::empty(),
        final(bl).unwrap().listeners() == Map::<Seq<char>, Seq<i64>>::empty(),
        final(bl).unwrap().levels() == Map::<Seq<char>, P>::empty(),
{
    *bl = Some(BackLight::new());
}

/// Whether the backlight state was started.
pub fn is_bl_inited<C, W, D, P>(bl: &Option<BackLight<C, W, D, P>>) -> (r: bool)
    ensures
        r == (bl is Some),
{
    bl.is_some()
}

/// Drops the callback under `key` (once the state is started), as
/// `BackLight::remove_cb` does, and hands back what was dropped.
pub fn unregister_callback<C, W, D, P>(bl: &mut Option<BackLight<C, W, D, P>>, key: i32) -> (r: Option<
    (String, W, C),
>)
    requires
        *old(bl) is Some ==> old(bl).unwrap().wf(),
    ensures
        match *old(bl) {
            Some(b) => {
                &&& *final(bl) is Some
                &&& final(bl).unwrap().wf()
                &&& final(bl).unwrap().callbacks() == b.callbacks().remove(key as i64)
                &&& final(bl).unwrap().device_of() == b.device_of().remove(key as i64)
                &&& final(bl).unwrap().contexts() == b.contexts().remove(key as i64)
                &&& final(bl).unwrap().told() == b.told()
                &&& final(bl).unwrap().devices() == b.devices()
                &&& final(bl).unwrap().levels() == b.levels()
                &&& final(bl).unwrap().next_id() == b.next_id()
                &&& (r is Some) == b.callbacks().contains_key(key as i64)
                &&& match r {
                    Some(e) => {
                        &&& e.0@ == b.device_of()[key as i64]
                        &&& e.1 == b.contexts()[key as i64]
                        &&& e.2 == b.callbacks()[key as i64]
                        &&& final(bl).unwrap().listeners() == if b.listeners().contains_key(e.0@) {
                            b.listeners().insert(e.0@, without(b.listeners()[e.0@], key as i64))
                        } else {
                            b.listeners()
                        }
                    },
                    None => final(bl).unwrap().listeners() == b.listeners(),
                }
            },
            None => *final(bl) is None && r is None,
        },
{
    if is_bl_inited(bl) {
        let mut b = bl.take().unwrap();
        let r = b.remove_cb(key);
        *bl = Some(b);
        r
    } else {
        None
    }
}

/// Starts watching the device file at `path` for brightness changes:
/// `watched` is the outcome of asking the file watcher to watch it. On
/// success, `sender` is kept as the path's channel to its listener (taking
/// the place of an earlier one).
pub fn watch<S>(senders: &mut KeyedMap<String, S>, path: String, watched: Result<(), String>, sender: S) -> (r:
    Result<(), String>)
    requires
        old(senders).wf(),
    ensures
        final(senders).wf(),
        r == watched,
        match watched {
            Ok(_) => final(senders)@ == old(senders)@.insert(path@, sender),
            Err(_) => final(senders)@ == old(senders)@,
        },
{
    match watched {
        Ok(done) => {
            senders.insert(path, sender);
            Ok(done)
        },
        Err(e) => Err(e),
    }
}

/// Stops watching the device file at `path`: `unwatched` is the outcome of
/// asking the file watcher to stop. On success the path's channel is
/// dropped.
pub fn unwatch<S>(senders: &mut KeyedMap<String, S>, path: &String, unwatched: Result<(), String>) -> (r:
    Result<(), String>)
    requires
        old(senders).wf(),
    ensures
        final(senders).wf(),
        r == unwatched,
        match unwatched {
            Ok(_) => final(senders)@ == old(senders)@.remove(path@),
            Err(_) => final(senders)@ == old(senders)@,
        },
{
    match unwatched {
        Ok(done) => {
            senders.remove(path);
            Ok(done)
        },
        Err(e) => Err(e),
    }
}

} // verus!
