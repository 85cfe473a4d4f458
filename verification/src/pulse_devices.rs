use vstd::prelude::*;
use crate::pulse::PaError;
use crate::registry::{IdMap, KeyedMap, MapKey};

verus! {

/// A sound device, by its description: an output (sink) or an input
/// (source).
#[derive(Debug, Hash)]
pub enum SinkOrSource {
    Sink(String),
    Source(String),
}

impl View for SinkOrSource {
    /// Whether it is a sink, and the description.
    type V = (bool, Seq<char>);

    open spec fn view(&self) -> (bool, Seq<char>) {
        match self {
            SinkOrSource::Sink(s) => (true, s@),
            SinkOrSource::Source(s) => (false, s@),
        }
    }
}

impl Clone for SinkOrSource {
    fn clone(&self) -> (r: Self)
        ensures
            r@ == self@,
    {
        match self {
            SinkOrSource::Sink(s) => SinkOrSource::Sink(s.clone()),
            SinkOrSource::Source(s) => SinkOrSource::Source(s.clone()),
        }
    }
}

impl PartialEq for SinkOrSource {
    fn eq(&self, other: &Self) -> (r: bool) {
        match (self, other) {
            (SinkOrSource::Sink(a), SinkOrSource::Sink(b)) => *a == *b,
            (SinkOrSource::Source(a), SinkOrSource::Source(b)) => *a == *b,
            _ => false,
        }
    }
}

impl vstd::std_specs::cmp::PartialEqSpecImpl for SinkOrSource {
    open spec fn obeys_eq_spec() -> bool {
        true
    }

    open spec fn eq_spec(&self, other: &Self) -> bool {
        self@ == other@
    }
}

impl Eq for SinkOrSource {
}

impl MapKey for SinkOrSource {
    fn same_key(&self, other: &Self) -> (r: bool) {
        match (self, other) {
            (SinkOrSource::Sink(a), SinkOrSource::Sink(b)) => *a == *b,
            (SinkOrSource::Source(a), SinkOrSource::Source(b)) => *a == *b,
            _ => false,
        }
    }
}

/// The volume callbacks of the device monitor: each under its id, and for
/// each device the ids of the callbacks registered for it. Alongside, a
/// record of every call the monitor makes to a callback, by the id it is
/// stored (or registered) under, in order.
pub struct PA<C> {
    count: i32,
    cbs: IdMap<C>,
    device_map: KeyedMap<SinkOrSource, IdMap<()>>,
    told: Ghost<Seq<i64>>,
}

/// The calls that telling the callbacks under `ids` makes, in order: one
/// for each id that still has a callback.
pub open spec fn called_ids<C>(ids: Seq<i64>, callbacks: Map<i64, C>) -> Seq<i64>
    decreases ids.len(),
{
    if ids.len() == 0 {
        Seq::empty()
    } else {
        let rest = called_ids(ids.drop_last(), callbacks);
        if callbacks.contains_key(ids.last()) {
            rest.push(ids.last())
        } else {
            rest
        }
    }
}

impl<C> PA<C> {
    /// The id that the next callback gets.
    pub closed spec fn next_id(&self) -> i32 {
        self.count
    }

    /// The callbacks, by id.
    pub closed spec fn callbacks(&self) -> Map<i64, C> {
        self.cbs@
    }

    /// The calls made to the callbacks so far, by id.
    pub closed spec fn told(&self) -> Seq<i64> {
        self.told@
    }

    /// For each device, the ids registered for it, in the order in which
    /// they are called.
    pub closed spec fn listeners(&self) -> Map<(bool, Seq<char>), Seq<i64>> {
        Map::new(|d: (bool, Seq<char>)| self.device_map@.contains_key(d), |d: (bool, Seq<char>)| self.device_map@[d].ids())
    }

    /// Ids are handed out from zero up; every id in use, or listed for a
    /// device, was handed out. (An id stays listed for its device after
    /// its callback is dropped.)
    pub closed spec fn wf(&self) -> bool {
        &&& self.cbs.wf()
        &&& self.device_map.wf()
        &&& self.count >= 0
        &&& forall|k: i64| #[trigger] self.cbs@.contains_key(k) ==> 0 <= k < self.count
        &&& forall|d: (bool, Seq<char>)| #[trigger] self.device_map@.contains_key(d) ==> {
            &&& self.device_map@[d].wf()
            &&& forall|k: i64| #[trigger] self.device_map@[d]@.contains_key(k) ==> 0 <= k < self.count
        }
    }

    pub fn new() -> (r: Self)
        ensures
            r.wf(),
            r.next_id() == 0,
            r.callbacks() == Map::<i64, C>::empty(),
            r.listeners() == Map::<(bool, Seq<char>), Seq<i64>>::empty(),
            r.told() == Seq::<i64>::empty(),
    {
        let r = PA { count: 0, cbs: IdMap::new(), device_map: KeyedMap::new(), told: Ghost(Seq::empty()) };
        assert(r.listeners() =~= Map::<(bool, Seq<char>), Seq<i64>>::empty());
        r
    }

    /// The id that the next callback gets.
    pub fn next_key(&self) -> (r: i32)
        ensures
            r == self.next_id(),
    {
        self.count
    }

    /// Drops the callback under `key`; its id stays listed for its device.
    pub fn remove_cb(&mut self, key: i32)
        requires
            old(self).wf(),
        ensures
            final(self).wf(),
            final(self).callbacks() == old(self).callbacks().remove(key as i64),
            final(self).listeners() == old(self).listeners(),
            final(self).next_id() == old(self).next_id(),
            final(self).told() == old(self).told(),
    {
        self.cbs.remove(&(key as i64));
    }

    /// Registers `cb` for `device` under a fresh id and returns the id; `cb`
    /// is first called with the device's state, when it is known.
    pub fn add_cb<A>(&mut self, cb: C, device: SinkOrSource, vinfo: Option<A>) -> (key: i32) where
        C: FnMut(&A),
        requires
            old(self).wf(),
            old(self).next_id() < i32::MAX,
            forall|a: A| call_requires(cb, (&a,)),
        ensures
            final(self).wf(),
            key == old(self).next_id(),
            !old(self).callbacks().contains_key(key as i64),
            final(self).callbacks() == old(self).callbacks().insert(key as i64, cb),
            final(self).next_id() == old(self).next_id() + 1,
            final(self).listeners() == old(self).listeners().insert(
                device@,
                if old(self).listeners().contains_key(device@) {
                    old(self).listeners()[device@].push(key as i64)
                } else {
                    seq![key as i64]
                },
            ),
            final(self).told() == if vinfo is Some {
                old(self).told().push(key as i64)
            } else {
                old(self).told()
            },
            vinfo is Some ==> call_ensures(cb, (&vinfo.unwrap(),), ()),
    {
        let mut cb = cb;
        let key = self.count;
        self.count += 1;
        match &vinfo {
            Some(v) => {
                cb(v);
                self.told = Ghost(self.told@.push(key as i64));
            },
            None => {},
        }
        self.cbs.insert(key as i64, cb);
        let ghost dv = device@;
        let mut ids = match self.device_map.remove(&device) {
            Some(ids) => ids,
            None => IdMap::new(),
        };
        proof {
            if old(self).device_map@.contains_key(dv) {
                assert(ids.wf());
                assert(!ids@.contains_key(key as i64));
            }
        }
        ids.insert(key as i64, ());
        self.device_map.insert(device, ids);
        proof {
            assert forall|d: (bool, Seq<char>)| #[trigger] self.device_map@.contains_key(d) implies {
                &&& self.device_map@[d].wf()
                &&& forall|k: i64| #[trigger] self.device_map@[d]@.contains_key(k) ==> 0 <= k < self.count
            } by {
                if d != dv {
                    assert(old(self).device_map@.contains_key(d));
                }
            }
            assert(self.listeners() =~= old(self).listeners().insert(
                dv,
                if old(self).listeners().contains_key(dv) {
                    old(self).listeners()[dv].push(key as i64)
                } else {
                    seq![key as i64]
                },
            ));
        }
        key
    }

    /// Tells the callbacks registered for `device`, in order, its state,
    /// when it is known; ids whose callback was dropped are passed over.
    pub fn call<A>(&mut self, device: &SinkOrSource, vinfo: Option<A>) where C: FnMut(&A)
        requires
            old(self).wf(),
            forall|k: i64, a: A| old(self).callbacks().contains_key(k) ==> #[trigger] call_requires(
                old(self).callbacks()[k],
                (&a,),
            ),
        ensures
            final(self).wf(),
            final(self).callbacks() == old(self).callbacks(),
            final(self).listeners() == old(self).listeners(),
            final(self).next_id() == old(self).next_id(),
            final(self).told() == old(self).told() + if vinfo is Some && old(self).listeners().contains_key(
                device@,
            ) {
                called_ids(old(self).listeners()[device@], old(self).callbacks())
            } else {
                Seq::empty()
            },
            forall|k: i64|
                vinfo is Some && old(self).listeners().contains_key(device@) && old(
                    self,
                ).listeners()[device@].contains(k) && #[trigger] old(self).callbacks().contains_key(k)
                    ==> call_ensures(old(self).callbacks()[k], (&vinfo.unwrap(),), ()),
    {
        let v = match vinfo {
            Some(v) => v,
            None => {
                proof {
                    assert(self.told() =~= old(self).told() + Seq::<i64>::empty());
                }
                return ;
            },
        };
        let ids = match self.device_map.get(device) {
            Some(ids) => ids,
            None => {
                proof {
                    assert(self.told() =~= old(self).told() + Seq::<i64>::empty());
                }
                return ;
            },
        };
        let n = ids.len();
        let mut i: usize = 0;
        while i < n
            invariant
                self.wf(),
                self.device_map@.contains_key(device@),
                *ids == self.device_map@[device@],
                ids.wf(),
                n == ids.ids().len(),
                i <= n,
                self.told() == old(self).told() + called_ids(ids.ids().take(i as int), self.callbacks()),
                self.callbacks() == old(self).callbacks(),
                self.listeners() == old(self).listeners(),
                self.next_id() == old(self).next_id(),
                forall|k: i64, a: A| self.callbacks().contains_key(k) ==> #[trigger] call_requires(
                    self.callbacks()[k],
                    (&a,),
                ),
                forall|j: int| 0 <= j < i && self.callbacks().contains_key(#[trigger] ids.ids()[j])
                    ==> call_ensures(self.callbacks()[ids.ids()[j]], (&v,), ()),
            decreases n - i,
        {
            let id = *ids.key_at(i);
            match self.cbs.find(&id) {
                Some(j) => {
                    proof {
                        self.cbs.lemma_view_by_position(j as int);
                    }
                    let f = self.cbs.value_at_mut(j);
                    f(&v);
                    self.told = Ghost(self.told@.push(id));
                },
                None => {},
            }
            proof {
                let ks = ids.ids();
                assert(ks.take(i + 1).drop_last() =~= ks.take(i as int));
                assert(ks.take(i + 1).last() == ks[i as int]);
                assert(self.callbacks() == old(self).callbacks());
                let prev = called_ids(ks.take(i as int), self.callbacks());
                assert(called_ids(ks.take(i + 1), self.callbacks()) == if self.callbacks().contains_key(id) {
                    prev.push(id)
                } else {
                    prev
                });
                assert(self.told() =~= old(self).told() + called_ids(ks.take(i + 1), self.callbacks()));
            }
            i += 1;
        }
        proof {
            assert(ids.ids().take(n as int) =~= ids.ids());
            assert(old(self).listeners()[device@] == ids.ids());
            assert forall|k: i64|
                vinfo is Some && old(self).listeners().contains_key(device@) && old(
                    self,
                ).listeners()[device@].contains(k) && #[trigger] old(self).callbacks().contains_key(k)
                    implies call_ensures(old(self).callbacks()[k], (&vinfo.unwrap(),), ()) by {
                let j = ids.ids().index_of(k);
                assert(self.callbacks().contains_key(ids.ids()[j]));
            }
        }
    }
}

/// The calls that telling the callbacks under `ids` makes go only to ids
/// of the list that have a callback, and reach every such id; with no id
/// listed twice, no callback is called twice.
pub proof fn lemma_called_ids_exactly<C>(ids: Seq<i64>, callbacks: Map<i64, C>)
    ensures
        called_ids(ids, callbacks).len() <= ids.len(),
        forall|j: int| 0 <= j < called_ids(ids, callbacks).len() ==> ids.contains(#[trigger] called_ids(ids, callbacks)[j])
            && callbacks.contains_key(called_ids(ids, callbacks)[j]),
        forall|k: i64| ids.contains(k) && callbacks.contains_key(k) ==> #[trigger] called_ids(ids, callbacks).contains(k),
        ids.no_duplicates() ==> called_ids(ids, callbacks).no_duplicates(),
    decreases ids.len(),
{
    if ids.len() > 0 {
        let front = ids.drop_last();
        let last = ids.last();
        lemma_called_ids_exactly(front, callbacks);
        let rest = called_ids(front, callbacks);
        let t = called_ids(ids, callbacks);
        assert forall|j: int| 0 <= j < t.len() implies ids.contains(#[trigger] t[j]) && callbacks.contains_key(t[j]) by {
            if j < rest.len() {
                assert(t[j] == rest[j]);
                let i = choose|i: int| 0 <= i < front.len() && front[i] == rest[j];
                assert(ids[i] == front[i]);
            } else {
                assert(ids[ids.len() - 1] == last);
            }
        }
        assert forall|k: i64| ids.contains(k) && callbacks.contains_key(k) implies #[trigger] t.contains(k) by {
            let i = choose|i: int| 0 <= i < ids.len() && ids[i] == k;
            if i < ids.len() - 1 {
                assert(front[i] == k);
                assert(front.contains(k));
                assert(rest.contains(k));
                let j = choose|j: int| 0 <= j < rest.len() && rest[j] == k;
                assert(t[j] == rest[j]);
            } else {
                assert(t[rest.len() as int] == k);
            }
        }
        if ids.no_duplicates() {
            assert(front.no_duplicates()) by {
                assert forall|a: int, b: int| 0 <= a < front.len() && 0 <= b < front.len() && a != b
                    implies front[a] != front[b] by {
                    assert(front[a] == ids[a] && front[b] == ids[b]);
                }
            }
            assert forall|j1: int, j2: int| 0 <= j1 < t.len() && 0 <= j2 < t.len() && j1 != j2 implies t[j1] != t[j2] by {
                if j1 < rest.len() && j2 < rest.len() {
                    assert(t[j1] == rest[j1] && t[j2] == rest[j2]);
                } else if j1 < rest.len() {
                    assert(t[j1] == rest[j1]);
                    let i = choose|i: int| 0 <= i < front.len() && front[i] == rest[j1];
                    assert(ids[i] == front[i] && ids[ids.len() - 1] == last);
                } else if j2 < rest.len() {
                    assert(t[j2] == rest[j2]);
                    let i = choose|i: int| 0 <= i < front.len() && front[i] == rest[j2];
                    assert(ids[i] == front[i] && ids[ids.len() - 1] == last);
                }
            }
        }
    }
}

/// Telling a device's state (`call` with a known state) calls only the
/// callbacks listed for that device: every callback it calls is listed for
/// it, no callback whose id is not listed for it is called, and every
/// listed callback still registered is called exactly once.
pub proof fn lemma_call_tells_device_listeners_only<C>(pa: PA<C>, device: (bool, Seq<char>))
    requires
        pa.wf(),
        pa.listeners().contains_key(device),
    ensures
        ({
            let t = called_ids(pa.listeners()[device], pa.callbacks());
            &&& forall|j: int| 0 <= j < t.len() ==> pa.listeners()[device].contains(#[trigger] t[j])
                && pa.callbacks().contains_key(t[j])
            &&& forall|k: i64| !pa.listeners()[device].contains(k) ==> !t.contains(k)
            &&& forall|k: i64| pa.listeners()[device].contains(k) && pa.callbacks().contains_key(k) ==> #[trigger] t.contains(k)
            &&& t.no_duplicates()
        }),
{
    let ids = pa.listeners()[device];
    let t = called_ids(ids, pa.callbacks());
    pa.device_map@[device].lemma_dom_is_ids();
    lemma_called_ids_exactly(ids, pa.callbacks());
    assert forall|k: i64| !ids.contains(k) implies !t.contains(k) by {
        if t.contains(k) {
            let j = choose|j: int| 0 <= j < t.len() && t[j] == k;
            assert(ids.contains(t[j]));
        }
    }
}

/// Unregistering the id that registering handed out gives back the
/// callbacks as they were (the id stays among its device's listeners, where
/// it is passed over): the new id was not in use.
pub proof fn lemma_unregister_undoes_register<C>(pa: PA<C>, cb: C)
    requires
        pa.wf(),
    ensures
        !pa.callbacks().contains_key(pa.next_id() as i64),
        pa.callbacks().insert(pa.next_id() as i64, cb).remove(pa.next_id() as i64) == pa.callbacks(),
{
    assert(pa.callbacks().insert(pa.next_id() as i64, cb).remove(pa.next_id() as i64) =~= pa.callbacks());
}

/// The device monitor as the program holds it: whether it was started, and
/// its callbacks while it runs.
pub struct PaGlobal<C> {
    inited: bool,
    ctx: Option<PA<C>>,
}

impl<C> PaGlobal<C> {
    pub closed spec fn started(&self) -> bool {
        self.inited
    }

    pub closed spec fn context(&self) -> Option<PA<C>> {
        self.ctx
    }

    /// A running monitor was started, and its callbacks are well formed.
    pub open spec fn wf(&self) -> bool {
        match self.context() {
            Some(pa) => self.started() && pa.wf(),
            None => true,
        }
    }

    /// Not started.
    pub fn new() -> (r: Self)
        ensures
            r.wf(),
            !r.started(),
            r.context() is None,
    {
        PaGlobal { inited: false, ctx: None }
    }

    /// Marks the monitor started, with no callbacks.
    pub fn init_pa(&mut self)
        ensures
            final(self).wf(),
            final(self).started(),
            final(self).context() is Some,
            final(self).context().unwrap().next_id() == 0,
            final(self).context().unwrap().callbacks() == Map::<i64, C>::empty(),
            final(self).context().unwrap().listeners() == Map::<(bool, Seq<char>), Seq<i64>>::empty(),
    {
        self.inited = true;
        self.ctx = Some(PA::new());
    }

    pub fn is_pa_inited(&self) -> (r: bool)
        ensures
            r == self.started(),
    {
        self.inited
    }

    /// The id the next callback gets, while the monitor holds callbacks.
    pub fn next_key(&self) -> (r: Option<i32>)
        requires
            self.wf(),
        ensures
            r == match self.context() {
                Some(pa) => Some(pa.next_id()),
                None => None,
            },
    {
        match &self.ctx {
            Some(pa) => Some(pa.next_key()),
            None => None,
        }
    }

    /// Whether the monitor holds no callbacks.
    pub fn is_pa_empty(&self) -> (r: bool)
        ensures
            r == (self.context() is None),
    {
        self.ctx.is_none()
    }

    /// Makes sure the monitor runs: starts it when it was not started
    /// (the caller starts its subscriber first); `Closed` when it was started
    /// and holds no callbacks.
    pub fn try_init_pulseaudio(&mut self) -> (r: Result<(), PaError>)
        requires
            old(self).wf(),
        ensures
            final(self).wf(),
            !old(self).started() ==> {
                &&& r == Ok::<(), PaError>(())
                &&& final(self).started()
                &&& final(self).context() is Some
                &&& final(self).context().unwrap().next_id() == 0
                &&& final(self).context().unwrap().callbacks() == Map::<i64, C>::empty()
                &&& final(self).context().unwrap().listeners() == Map::<(bool, Seq<char>), Seq<i64>>::empty()
            },
            old(self).started() ==> *final(self) == *old(self),
            old(self).started() ==> r == if old(self).context() is None {
                Err::<(), PaError>(PaError::Closed)
            } else {
                Ok(())
            },
    {
        if !self.is_pa_inited() {
            self.init_pa();
        } else if self.is_pa_empty() {
            return Err(PaError::Closed);
        }
        Ok(())
    }

    /// Makes sure the monitor runs, then registers `cb` for `device` as
    /// `PA::add_cb` does and returns its id.
    pub fn register_callback<A>(&mut self, cb: C, device: SinkOrSource, vinfo: Option<A>) -> (r: Result<i32, PaError>) where
        C: FnMut(&A),
        requires
            old(self).wf(),
            old(self).context() is Some ==> old(self).context().unwrap().next_id() < i32::MAX,
            forall|a: A| call_requires(cb, (&a,)),
        ensures
            final(self).wf(),
            old(self).started() && old(self).context() is None ==> r == Err::<i32, PaError>(PaError::Closed)
                && *final(self) == *old(self),
            !(old(self).started() && old(self).context() is None) ==> {
                let (prev_cbs, prev_id, prev_ls) = if old(self).started() {
                    let pa = old(self).context().unwrap();
                    (pa.callbacks(), pa.next_id(), pa.listeners())
                } else {
                    (Map::<i64, C>::empty(), 0i32, Map::<(bool, Seq<char>), Seq<i64>>::empty())
                };
                &&& r == Ok::<i32, PaError>(prev_id)
                &&& final(self).started()
                &&& final(self).context() is Some
                &&& final(self).context().unwrap().callbacks() == prev_cbs.insert(prev_id as i64, cb)
                &&& final(self).context().unwrap().next_id() == prev_id + 1
                &&& final(self).context().unwrap().listeners() == prev_ls.insert(
                    device@,
                    if prev_ls.contains_key(device@) {
                        prev_ls[device@].push(prev_id as i64)
                    } else {
                        seq![prev_id as i64]
                    },
                )
                &&& vinfo is Some ==> call_ensures(cb, (&vinfo.unwrap(),), ())
            },
    {
        self.try_init_pulseaudio()?;
        let mut pa = self.ctx.take().unwrap();
        let key = pa.add_cb(cb, device, vinfo);
        self.ctx = Some(pa);
        Ok(key)
    }

    /// Drops the callback under `key`, while the monitor holds callbacks.
    pub fn unregister_callback(&mut self, key: i32)
        requires
            old(self).wf(),
        ensures
            final(self).wf(),
            final(self).started() == old(self).started(),
            match old(self).context() {
                Some(pa) => final(self).context() is Some && {
                    let now = final(self).context().unwrap();
                    &&& now.callbacks() == pa.callbacks().remove(key as i64)
                    &&& now.listeners() == pa.listeners()
                    &&& now.next_id() == pa.next_id()
                },
                None => final(self).context() is None,
            },
    {
        if !self.is_pa_empty() {
            let mut pa = self.ctx.take().unwrap();
            pa.remove_cb(key);
            self.ctx = Some(pa);
        }
    }

    /// Tells the running monitor's callbacks for `device` its state, as
    /// `PA::call` does.
    pub fn call_pa<A>(&mut self, device: &SinkOrSource, vinfo: Option<A>) where C: FnMut(&A)
        requires
            old(self).wf(),
            old(self).context() is Some,
            forall|k: i64, a: A| old(self).context().unwrap().callbacks().contains_key(k) ==> #[trigger] call_requires(
                old(self).context().unwrap().callbacks()[k],
                (&a,),
            ),
        ensures
            final(self).wf(),
            final(self).started() == old(self).started(),
            final(self).context() is Some,
            final(self).context().unwrap().callbacks() == old(self).context().unwrap().callbacks(),
            final(self).context().unwrap().listeners() == old(self).context().unwrap().listeners(),
            final(self).context().unwrap().next_id() == old(self).context().unwrap().next_id(),
            forall|k: i64|
                vinfo is Some && old(self).context().unwrap().listeners().contains_key(device@) && old(
                    self,
                ).context().unwrap().listeners()[device@].contains(k) && #[trigger] old(
                    self,
                ).context().unwrap().callbacks().contains_key(k) ==> call_ensures(
                    old(self).context().unwrap().callbacks()[k],
                    (&vinfo.unwrap(),),
                    (),
                ),
    {
        let mut pa = self.ctx.take().unwrap();
        pa.call(device, vinfo);
        self.ctx = Some(pa);
    }
}

/// The default devices and the last known state of each device, by
/// description.
pub struct DeviceStates<A> {
    default_sink: Option<String>,
    default_source: Option<String>,
    sinks: KeyedMap<String, A>,
    sources: KeyedMap<String, A>,
}

impl<A> DeviceStates<A> {
    pub closed spec fn default_sink_name(&self) -> Option<Seq<char>> {
        match self.default_sink {
            Some(s) => Some(s@),
            None => None,
        }
    }

    pub closed spec fn default_source_name(&self) -> Option<Seq<char>> {
        match self.default_source {
            Some(s) => Some(s@),
            None => None,
        }
    }

    /// The sinks' states, by description.
    pub closed spec fn sink_states(&self) -> Map<Seq<char>, A> {
        self.sinks@
    }

    /// The sources' states, by description.
    pub closed spec fn source_states(&self) -> Map<Seq<char>, A> {
        self.sources@
    }

    pub closed spec fn wf(&self) -> bool {
        self.sinks.wf() && self.sources.wf()
    }

    pub fn new() -> (r: Self)
        ensures
            r.wf(),
            r.default_sink_name() is None,
            r.default_source_name() is None,
            r.sink_states() == Map::<Seq<char>, A>::empty(),
            r.source_states() == Map::<Seq<char>, A>::empty(),
    {
        DeviceStates { default_sink: None, default_source: None, sinks: KeyedMap::new(), sources: KeyedMap::new() }
    }

    pub fn get_default_sink(&self) -> (r: Option<&String>)
        ensures
            match r {
                Some(s) => self.default_sink_name() == Some(s@),
                None => self.default_sink_name() is None,
            },
    {
        self.default_sink.as_ref()
    }

    pub fn set_default_sink(&mut self, s: String)
        ensures
            final(self).default_sink_name() == Some(s@),
            final(self).default_source_name() == old(self).default_source_name(),
            final(self).sink_states() == old(self).sink_states(),
            final(self).source_states() == old(self).source_states(),
            final(self).wf() == old(self).wf(),
    {
        self.default_sink = Some(s);
    }

    pub fn get_default_source(&self) -> (r: Option<&String>)
        ensures
            match r {
                Some(s) => self.default_source_name() == Some(s@),
                None => self.default_source_name() is None,
            },
    {
        self.default_source.as_ref()
    }

    pub fn set_default_source(&mut self, s: String)
        ensures
            final(self).default_source_name() == Some(s@),
            final(self).default_sink_name() == old(self).default_sink_name(),
            final(self).sink_states() == old(self).sink_states(),
            final(self).source_states() == old(self).source_states(),
            final(self).wf() == old(self).wf(),
    {
        self.default_source = Some(s);
    }

    pub fn get_sink_vol_by_name(&self, n: &String) -> (r: Option<&A>)
        requires
            self.wf(),
        ensures
            r == if self.sink_states().contains_key(n@) {
                Some(&self.sink_states()[n@])
            } else {
                None
            },
    {
        self.sinks.get(n)
    }

    pub fn get_source_vol_by_name(&self, n: &String) -> (r: Option<&A>)
        requires
            self.wf(),
        ensures
            r == if self.source_states().contains_key(n@) {
                Some(&self.source_states()[n@])
            } else {
                None
            },
    {
        self.sources.get(n)
    }

    pub fn set_sink_vol_by_name(&mut self, n: String, v: A)
        requires
            old(self).wf(),
        ensures
            final(self).wf(),
            final(self).sink_states() == old(self).sink_states().insert(n@, v),
            final(self).source_states() == old(self).source_states(),
            final(self).default_sink_name() == old(self).default_sink_name(),
            final(self).default_source_name() == old(self).default_source_name(),
    {
        self.sinks.insert(n, v);
    }

    pub fn set_source_vol_by_name(&mut self, n: String, v: A)
        requires
            old(self).wf(),
        ensures
            final(self).wf(),
            final(self).source_states() == old(self).source_states().insert(n@, v),
            final(self).sink_states() == old(self).sink_states(),
            final(self).default_sink_name() == old(self).default_sink_name(),
            final(self).default_source_name() == old(self).default_source_name(),
    {
        self.sources.insert(n, v);
    }

    /// The state of `device`, if known.
    pub fn get_vinfo(&self, device: &SinkOrSource) -> (r: Option<&A>)
        requires
            self.wf(),
        ensures
            r == match device@ {
                (true, n) => if self.sink_states().contains_key(n) {
                    Some(&self.sink_states()[n])
                } else {
                    None
                },
                (false, n) => if self.source_states().contains_key(n) {
                    Some(&self.source_states()[n])
                } else {
                    None
                },
            },
    {
        match device {
            SinkOrSource::Sink(n) => self.sinks.get(n),
            SinkOrSource::Source(n) => self.sources.get(n),
        }
    }

    /// The sink to change: the one named, or else the default one.
    pub fn sink_to_change<'a>(&'a self, named: Option<&'a String>) -> (r: Option<&'a String>)
        ensures
            match named {
                Some(s) => r == Some(s),
                None => match r {
                    Some(s) => self.default_sink_name() == Some(s@),
                    None => self.default_sink_name() is None,
                },
            },
    {
        match named {
            Some(s) => Some(s),
            None => self.get_default_sink(),
        }
    }

    /// The source to change: the one named, or else the default one.
    pub fn source_to_change<'a>(&'a self, named: Option<&'a String>) -> (r: Option<&'a String>)
        ensures
            match named {
                Some(s) => r == Some(s),
                None => match r {
                    Some(s) => self.default_source_name() == Some(s@),
                    None => self.default_source_name() is None,
                },
            },
    {
        match named {
            Some(s) => Some(s),
            None => self.get_default_source(),
        }
    }
}

/// One answer of the sound server while it lists its devices: a device
/// with its description and index, the end of the list, or an error.
#[derive(Debug)]
pub enum ListEntry {
    Item(String, u32),
    End,
    Error,
}

/// Looks for the index of the device with a given description while the
/// server lists its devices: the first device with that description is the
/// answer, and the search stops there or at the end of the list or an
/// error.
pub struct NameMatch {
    name: String,
    done: bool,
    index: Option<u32>,
}

/// The search state after the entries `seen`: whether it stopped, and the
/// index found.
pub open spec fn match_state(name: Seq<char>, seen: Seq<ListEntry>) -> (bool, Option<u32>)
    decreases seen.len(),
{
    if seen.len() == 0 {
        (false, None)
    } else {
        let (done, index) = match_state(name, seen.drop_last());
        if done {
            (done, index)
        } else {
            match seen.last() {
                ListEntry::Item(d, i) => if d@ == name {
                    (true, Some(i))
                } else {
                    (false, None)
                },
                _ => (true, None),
            }
        }
    }
}

/// Whether the search stops at entry `e`: the device sought, the end of the
/// list, or an error.
pub open spec fn stops_at(name: Seq<char>, e: ListEntry) -> bool {
    match e {
        ListEntry::Item(d, _) => d@ == name,
        _ => true,
    }
}

/// The search has stopped exactly when some entry seen stops it, and it
/// found index `i` exactly when the first such entry is the device sought,
/// with index `i`.
pub proof fn lemma_match_is_first(name: Seq<char>, seen: Seq<ListEntry>)
    ensures
        match_state(name, seen).0 <==> exists|p: int| 0 <= p < seen.len() && #[trigger] stops_at(name, seen[p]),
        forall|i: u32|
            match_state(name, seen).1 == Some(i) <==> exists|p: int|
                0 <= p < seen.len() && (#[trigger] seen[p] matches ListEntry::Item(d, x) && d@ == name && x == i)
                    && forall|q: int| 0 <= q < p ==> !#[trigger] stops_at(name, seen[q]),
    decreases seen.len(),
{
    if seen.len() > 0 {
        let front = seen.drop_last();
        lemma_match_is_first(name, front);
        let last = seen.len() - 1;
        assert forall|p: int| 0 <= p < front.len() implies front[p] == seen[p] by {}
        if match_state(name, front).0 {
            let p0 = choose|p: int| 0 <= p < front.len() && #[trigger] stops_at(name, front[p]);
            assert(stops_at(name, seen[p0]));
        } else if match_state(name, seen).0 {
            assert(stops_at(name, seen[last]));
        }
        if exists|p: int| 0 <= p < seen.len() && #[trigger] stops_at(name, seen[p]) {
            let p = choose|p: int| 0 <= p < seen.len() && #[trigger] stops_at(name, seen[p]);
            if p < last {
                assert(stops_at(name, front[p]));
            }
        }
        assert forall|i: u32|
            match_state(name, seen).1 == Some(i) <==> exists|p: int|
                0 <= p < seen.len() && (#[trigger] seen[p] matches ListEntry::Item(d, x) && d@ == name && x == i)
                    && forall|q: int| 0 <= q < p ==> !#[trigger] stops_at(name, seen[q]) by {
            if match_state(name, seen).1 == Some(i) {
                if match_state(name, front).1 == Some(i) {
                    let p = choose|p: int|
                        0 <= p < front.len() && (#[trigger] front[p] matches ListEntry::Item(d, x) && d@ == name && x
                            == i) && forall|q: int| 0 <= q < p ==> !#[trigger] stops_at(name, front[q]);
                    assert(seen[p] == front[p]);
                    assert forall|q: int| 0 <= q < p implies !#[trigger] stops_at(name, seen[q]) by {
                        assert(seen[q] == front[q]);
                    }
                } else {
                    assert(!match_state(name, front).0) by {
                        if match_state(name, front).0 {
                            assert(match_state(name, seen) == match_state(name, front));
                        }
                    }
                    assert forall|q: int| 0 <= q < last implies !#[trigger] stops_at(name, seen[q]) by {
                        assert(seen[q] == front[q]);
                        if stops_at(name, seen[q]) {
                            assert(stops_at(name, front[q]));
                        }
                    }
                }
            }
            if exists|p: int|
                0 <= p < seen.len() && (#[trigger] seen[p] matches ListEntry::Item(d, x) && d@ == name && x == i)
                    && forall|q: int| 0 <= q < p ==> !#[trigger] stops_at(name, seen[q]) {
                let p = choose|p: int|
                    0 <= p < seen.len() && (#[trigger] seen[p] matches ListEntry::Item(d, x) && d@ == name && x == i)
                        && forall|q: int| 0 <= q < p ==> !#[trigger] stops_at(name, seen[q]);
                if p < last {
                    assert(front[p] == seen[p]);
                    assert forall|q: int| 0 <= q < p implies !#[trigger] stops_at(name, front[q]) by {
                        assert(seen[q] == front[q]);
                    }
                    assert(match_state(name, front).1 == Some(i));
                    assert(match_state(name, front).0) by {
                        assert(stops_at(name, front[p]));
                    }
                } else {
                    assert(!match_state(name, front).0) by {
                        if match_state(name, front).0 {
                            let p0 = choose|p0: int| 0 <= p0 < front.len() && #[trigger] stops_at(name, front[p0]);
                            assert(seen[p0] == front[p0]);
                            assert(stops_at(name, seen[p0]));
                        }
                    }
                }
            }
        }
    }
}

impl NameMatch {
    pub closed spec fn target(&self) -> Seq<char> {
        self.name@
    }

    pub closed spec fn state(&self) -> (bool, Option<u32>) {
        (self.done, self.index)
    }

    /// Looking for `name`, nothing seen yet.
    pub fn new(name: String) -> (r: Self)
        ensures
            r.target() == name@,
            r.state() == match_state(name@, Seq::empty()),
    {
        NameMatch { name, done: false, index: None }
    }

    /// Takes in the next entry of the list.
    pub fn step(&mut self, e: ListEntry)
        ensures
            final(self).target() == old(self).target(),
            forall|seen: Seq<ListEntry>| old(self).state() == match_state(old(self).target(), seen)
                ==> #[trigger] match_state(old(self).target(), seen.push(e)) == final(self).state(),
    {
        if self.done {
            proof {
                assert forall|seen: Seq<ListEntry>| old(self).state() == match_state(old(self).target(), seen)
                    implies #[trigger] match_state(old(self).target(), seen.push(e)) == self.state() by {
                    assert(seen.push(e).drop_last() == seen);
                }
            }
            return ;
        }
        match e {
            ListEntry::Item(d, i) => {
                if d == self.name {
                    self.index = Some(i);
                    self.done = true;
                }
            },
            _ => {
                self.done = true;
            },
        }
        proof {
            assert forall|seen: Seq<ListEntry>| old(self).state() == match_state(old(self).target(), seen)
                implies #[trigger] match_state(old(self).target(), seen.push(e)) == self.state() by {
                assert(seen.push(e).drop_last() == seen);
            }
        }
    }

    /// Whether the search stopped.
    pub fn is_done(&self) -> (r: bool)
        ensures
            r == self.state().0,
    {
        self.done
    }

    /// The index found, if any.
    pub fn result(&self) -> (r: Option<u32>)
        ensures
            r == self.state().1,
    {
        self.index
    }
}

/// The index of the first device described `name` in a listing, looked for
/// as `NameMatch` does; `None` when the listing stops without one.
pub fn match_name_index(name: String, entries: Vec<ListEntry>) -> (r: Option<u32>)
    ensures
        r == match_state(name@, entries@).1,
{
    let ghost all = entries@;
    let mut m = NameMatch::new(name);
    for e in it: entries
        invariant
            it.seq() == all,
            m.state() == match_state(m.target(), all.take(it.index() as int)),
            m.target() == name@,
    {
        proof {
            assert(all.take(it.index() + 1) == all.take(it.index() as int).push(e));
        }
        m.step(e);
    }
    proof {
        assert(all.take(all.len() as int) == all);
    }
    m.result()
}

} // verus!
