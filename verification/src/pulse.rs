use vstd::prelude::*;
use crate::registry::IdMap;

verus! {

/// Which kinds of device a callback follows, or a change concerns: the
/// sink (output) and the source (input).
#[derive(Debug, Clone, Copy, PartialEq, Eq, Structural)]
pub struct Interest {
    pub sink: bool,
    pub source: bool,
}

impl Interest {
    pub open spec fn sink_only() -> Interest {
        Interest { sink: true, source: false }
    }

    pub open spec fn source_only() -> Interest {
        Interest { sink: false, source: true }
    }
}

/// Why the volume monitor could not be used.
#[derive(Debug, PartialEq, Eq)]
pub enum PaError {
    /// Starting the monitor's main loop failed, with this message.
    Mainloop(String),
    /// The monitor was started before and has since stopped on an error.
    Closed,
    /// The default sink or source is not known.
    Unavailable,
}

/// The volume monitor's callbacks: each under its id, with what it follows,
/// and the callbacks to tell when the monitor stops on an error.
/// Alongside, a record of every call the monitor makes to a callback: the
/// id it is stored under (or registered under, for the calls of
/// registration) and the kind of change it is told, in order.
pub struct PA<C, E> {
    count: i32,
    cbs: IdMap<(C, Interest)>,
    on_error_cbs: Vec<E>,
    told: Ghost<Seq<(i64, Interest)>>,
}

/// The calls that telling a change of kind `kind` to the callbacks under
/// `ids` makes, in order: one for each id whose callback follows the change.
pub open spec fn told_calls<C>(ids: Seq<i64>, callbacks: Map<i64, (C, Interest)>, kind: Interest) -> Seq<
    (i64, Interest),
>
    decreases ids.len(),
{
    if ids.len() == 0 {
        Seq::empty()
    } else {
        let rest = told_calls(ids.drop_last(), callbacks, kind);
        if callbacks.contains_key(ids.last()) && is_told(callbacks[ids.last()].1, kind) {
            rest.push((ids.last(), kind))
        } else {
            rest
        }
    }
}

impl<C, E> PA<C, E> {
    /// The id that the next callback gets.
    pub closed spec fn next_id(&self) -> i32 {
        self.count
    }

    /// The callbacks with what they follow, by id.
    pub closed spec fn callbacks(&self) -> Map<i64, (C, Interest)> {
        self.cbs@
    }

    /// The ids in the order in which callbacks are called.
    pub closed spec fn call_order(&self) -> Seq<i64> {
        self.cbs.ids()
    }

    /// The calls made to the callbacks so far, with the kind of change each
    /// was told.
    pub closed spec fn told(&self) -> Seq<(i64, Interest)> {
        self.told@
    }

    /// The error callbacks, in the order in which they are called.
    pub closed spec fn error_callbacks(&self) -> Seq<E> {
        self.on_error_cbs@
    }

    /// Ids are handed out from zero up, and every id in use was handed out.
    pub closed spec fn wf(&self) -> bool {
        &&& self.cbs.wf()
        &&& self.count >= 0
        &&& forall|k: i64| #[trigger] self.cbs@.contains_key(k) ==> 0 <= k < self.count
    }

    pub fn new() -> (r: Self)
        ensures
            r.wf(),
            r.next_id() == 0,
            r.callbacks() == Map::<i64, (C, Interest)>::empty(),
            r.error_callbacks() == Seq::<E>::empty(),
            r.told() == Seq::<(i64, Interest)>::empty(),
    {
        PA { count: 0, cbs: IdMap::new(), on_error_cbs: Vec::new(), told: Ghost(Seq::empty()) }
    }

    /// The id that the next callback gets.
    pub fn next_key(&self) -> (r: i32)
        ensures
            r == self.next_id(),
    {
        self.count
    }

    /// Drops the callback under `key`, if there is one.
    pub fn remove_cb(&mut self, key: i32)
        requires
            old(self).wf(),
        ensures
            final(self).wf(),
            final(self).callbacks() == old(self).callbacks().remove(key as i64),
            final(self).next_id() == old(self).next_id(),
            final(self).error_callbacks() == old(self).error_callbacks(),
            final(self).told() == old(self).told(),
    {
        self.cbs.remove(&(key as i64));
    }

    /// Number of callbacks.
    pub fn len(&self) -> (n: usize)
        requires
            self.wf(),
        ensures
            n == self.call_order().len(),
            n == self.callbacks().dom().len(),
    {
        self.cbs.len()
    }
}

/// Whether a callback that follows `follows` is told of a change of kind
/// `kind`: a change that concerns the sink goes to the sink's callbacks;
/// otherwise, one that concerns the source goes to the source's.
pub open spec fn is_told(follows: Interest, kind: Interest) -> bool {
    if kind.sink {
        follows.sink
    } else if kind.source {
        follows.source
    } else {
        false
    }
}

/// The device state a change of kind `kind` is told with: the sink's for a
/// change that concerns the sink, the source's otherwise.
pub open spec fn told_state<A>(kind: Interest, sink: A, source: A) -> A {
    if kind.sink {
        sink
    } else {
        source
    }
}

/// Every stored callback may be called with any device state and kind.
pub open spec fn callable<C: FnMut(A, Interest), A>(cbs: Map<i64, (C, Interest)>) -> bool {
    forall|k: i64, a: A, m: Interest|
        cbs.contains_key(k) ==> #[trigger] call_requires(cbs[k].0, (a, m))
}

impl<C, E> PA<C, E> {
    /// Registers `cb` for the devices in `interest` under a fresh id and
    /// returns the id. First `cb` is called with the state of each device
    /// that it follows (the sink's, then the source's); `error_cb`, if
    /// given, joins the error callbacks.
    pub fn add_cb<A: Copy>(
        &mut self,
        cb: C,
        error_cb: Option<E>,
        interest: Interest,
        sink: A,
        source: A,
    ) -> (key: i32) where C: FnMut(A, Interest)
        requires
            old(self).wf(),
            old(self).next_id() < i32::MAX,
            forall|a: A, m: Interest| call_requires(cb, (a, m)),
        ensures
            final(self).wf(),
            key == old(self).next_id(),
            !old(self).callbacks().contains_key(key as i64),
            final(self).callbacks() == old(self).callbacks().insert(key as i64, (cb, interest)),
            final(self).next_id() == old(self).next_id() + 1,
            final(self).error_callbacks() == match error_cb {
                Some(e) => old(self).error_callbacks().push(e),
                None => old(self).error_callbacks(),
            },
            final(self).told() == old(self).told() + (if interest.sink {
                seq![(key as i64, Interest::sink_only())]
            } else {
                Seq::empty()
            }) + (if interest.source {
                seq![(key as i64, Interest::source_only())]
            } else {
                Seq::empty()
            }),
            interest.sink ==> call_ensures(cb, (sink, Interest::sink_only()), ()),
            interest.source ==> call_ensures(cb, (source, Interest::source_only()), ()),
    {
        let mut cb = cb;
        let key = self.count;
        let ghost t0 = self.told@;
        if interest.sink {
            cb(sink, Interest { sink: true, source: false });
            self.told = Ghost(self.told@.push((key as i64, Interest::sink_only())));
        }
        let ghost t1 = self.told@;
        if interest.source {
            cb(source, Interest { sink: false, source: true });
            self.told = Ghost(self.told@.push((key as i64, Interest::source_only())));
        }
        proof {
            let a: Seq<(i64, Interest)> = if interest.sink {
                seq![(key as i64, Interest::sink_only())]
            } else {
                Seq::empty()
            };
            let b: Seq<(i64, Interest)> = if interest.source {
                seq![(key as i64, Interest::source_only())]
            } else {
                Seq::empty()
            };
            assert(t1 =~= t0 + a);
            assert(self.told@ =~= t0 + a + b);
        }
        self.cbs.insert(key as i64, (cb, interest));
        if let Some(e) = error_cb {
            self.on_error_cbs.push(e);
        }
        self.count += 1;
        key
    }

    /// Tells a change of kind `kind` to the callbacks that follow it, in call
    /// order: with the sink's state when the change concerns the sink,
    /// otherwise with the source's state when it concerns the source.
    pub fn call<A: Copy>(&mut self, kind: Interest, sink: A, source: A) where C: FnMut(A, Interest)
        requires
            old(self).wf(),
            callable::<C, A>(old(self).callbacks()),
        ensures
            final(self).wf(),
            final(self).callbacks() == old(self).callbacks(),
            final(self).call_order() == old(self).call_order(),
            final(self).next_id() == old(self).next_id(),
            final(self).error_callbacks() == old(self).error_callbacks(),
            final(self).told() == old(self).told() + told_calls(old(self).call_order(), old(self).callbacks(), kind),
            forall|k: i64| #[trigger] old(self).callbacks().contains_key(k) && is_told(
                old(self).callbacks()[k].1,
                kind,
            ) ==> call_ensures(
                old(self).callbacks()[k].0,
                (told_state(kind, sink, source), kind),
                (),
            ),
    {
        let n = self.cbs.len();
        let mut i: usize = 0;
        while i < n
            invariant
                self.wf(),
                n == self.call_order().len(),
                i <= n,
                self.told() == old(self).told() + told_calls(self.call_order().take(i as int), self.callbacks(), kind),
                self.callbacks() == old(self).callbacks(),
                self.call_order() == old(self).call_order(),
                self.next_id() == old(self).next_id(),
                self.error_callbacks() == old(self).error_callbacks(),
                callable::<C, A>(self.callbacks()),
                forall|j: int| 0 <= j < i && is_told(self.callbacks()[self.call_order()[j]].1, kind) ==> #[trigger] call_ensures(
                    self.callbacks()[self.call_order()[j]].0,
                    (told_state(kind, sink, source), kind),
                    (),
                ),
            decreases n - i,
        {
            proof {
                self.cbs.lemma_view_by_position(i as int);
            }
            let ghost id = self.call_order()[i as int];
            let ghost follows = self.callbacks()[id].1;
            assert(self.callbacks().contains_key(id));
            let entry = self.cbs.value_at_mut(i);
            assert(entry.1 == follows);
            if kind.sink {
                if entry.1.sink {
                    (entry.0)(sink, kind);
                    self.told = Ghost(self.told@.push((id, kind)));
                }
            } else if kind.source {
                if entry.1.source {
                    (entry.0)(source, kind);
                    self.told = Ghost(self.told@.push((id, kind)));
                }
            }
            proof {
                let ks = self.call_order();
                assert(ks.take(i + 1).drop_last() =~= ks.take(i as int));
                assert(ks.take(i + 1).last() == ks[i as int]);
                assert(self.callbacks()[id].1 == follows);
                assert(self.callbacks() == old(self).callbacks());
                let prev = told_calls(ks.take(i as int), self.callbacks(), kind);
                assert(told_calls(ks.take(i + 1), self.callbacks(), kind) == if is_told(follows, kind) {
                    prev.push((id, kind))
                } else {
                    prev
                });
                assert(is_told(follows, kind) ==> self.told@ == old(self).told() + prev.push((id, kind)));
                assert(!is_told(follows, kind) ==> self.told@ == old(self).told() + prev);
                assert(self.told() =~= old(self).told() + told_calls(ks.take(i + 1), self.callbacks(), kind));
            }
            i += 1;
        }
        proof {
            self.cbs.lemma_dom_is_ids();
            assert(self.call_order().take(n as int) =~= self.call_order());
            assert forall|k: i64| #[trigger] old(self).callbacks().contains_key(k) && is_told(
                old(self).callbacks()[k].1,
                kind,
            ) implies call_ensures(
                old(self).callbacks()[k].0,
                (told_state(kind, sink, source), kind),
                (),
            ) by {
                let j = self.call_order().index_of(k);
                assert(is_told(self.callbacks()[self.call_order()[j]].1, kind));
            }
        }
    }
}

impl<C, E: FnMut(String)> PA<C, E> {
    /// Tells every error callback, in order, the message `e`; the monitor's
    /// callbacks are dropped with it.
    pub fn error(self, e: String)
        requires
            forall|i: int, m: String| 0 <= i < self.error_callbacks().len() ==> #[trigger] call_requires(
                self.error_callbacks()[i],
                (m,),
            ),
        ensures
            forall|i: int| 0 <= i < self.error_callbacks().len() ==> #[trigger] call_ensures(
                self.error_callbacks()[i],
                (e,),
                (),
            ),
    {
        let cbs = self.on_error_cbs;
        let ghost fs = cbs@;
        assert(fs == self.error_callbacks());
        for f in it: cbs
            invariant
                it.seq() == fs,
                forall|i: int, m: String| 0 <= i < it.seq().len() ==> #[trigger] call_requires(
                    it.seq()[i],
                    (m,),
                ),
                forall|i: int| 0 <= i < it.index() ==> #[trigger] call_ensures(fs[i], (e,), ()),
        {
            let mut f = f;
            f(e.clone());
        }
    }
}

/// The volume monitor as the program holds it: whether it was ever started,
/// and its callbacks while it runs (none once it stopped on an error).
pub struct PaGlobal<C, E> {
    inited: bool,
    ctx: Option<PA<C, E>>,
}

/// A monitor just started: no callbacks, and ids from zero.
pub open spec fn is_fresh<C, E>(pa: PA<C, E>) -> bool {
    &&& pa.wf()
    &&& pa.next_id() == 0
    &&& pa.callbacks() == Map::<i64, (C, Interest)>::empty()
    &&& pa.error_callbacks() == Seq::<E>::empty()
}

impl<C, E> PaGlobal<C, E> {
    pub closed spec fn started(&self) -> bool {
        self.inited
    }

    pub closed spec fn context(&self) -> Option<PA<C, E>> {
        self.ctx
    }

    /// A running monitor was started, and its callbacks are well formed.
    pub open spec fn wf(&self) -> bool {
        match self.context() {
            Some(pa) => self.started() && pa.wf(),
            None => true,
        }
    }

    /// Not started.
    pub fn new() -> (r: Self)
        ensures
            r.wf(),
            !r.started(),
            r.context() is None,
    {
        PaGlobal { inited: false, ctx: None }
    }

    /// Marks the monitor started, with no callbacks.
    pub fn init_pa(&mut self)
        ensures
            final(self).wf(),
            final(self).started(),
            final(self).context() is Some,
            is_fresh(final(self).context().unwrap()),
    {
        self.inited = true;
        self.ctx = Some(PA::new());
    }

    pub fn is_pa_inited(&self) -> (r: bool)
        ensures
            r == self.started(),
    {
        self.inited
    }

    /// The id the next callback gets, while the monitor holds callbacks.
    pub fn next_key(&self) -> (r: Option<i32>)
        requires
            self.wf(),
        ensures
            r == match self.context() {
                Some(pa) => Some(pa.next_id()),
                None => None,
            },
    {
        match &self.ctx {
            Some(pa) => Some(pa.next_key()),
            None => None,
        }
    }

    /// Whether the monitor holds no callbacks: never started, or stopped.
    pub fn is_pa_empty(&self) -> (r: bool)
        ensures
            r == (self.context() is None),
    {
        self.ctx.is_none()
    }

    /// What making sure the monitor runs answers: a failed start of the
    /// main loop gives its message; a monitor that stopped gives `Closed`;
    /// otherwise the answer is `Ok` exactly when the devices are known.
    pub open spec fn init_outcome(
        &self,
        mainloop: Option<Result<(), String>>,
        devices_known: bool,
    ) -> Result<(), PaError> {
        if !self.started() && mainloop is Some && mainloop.unwrap() is Err {
            Err(PaError::Mainloop(mainloop.unwrap()->Err_0))
        } else if self.started() && self.context() is None {
            Err(PaError::Closed)
        } else if devices_known {
            Ok(())
        } else {
            Err(PaError::Unavailable)
        }
    }

    /// The state after making sure the monitor runs: a successful start
    /// leaves it started with no callbacks; otherwise nothing changes.
    pub open spec fn after_init(&self, final_state: Self, mainloop: Option<Result<(), String>>) -> bool {
        if !self.started() && mainloop is Some && mainloop.unwrap() is Ok {
            &&& final_state.started()
            &&& final_state.context() is Some
            &&& is_fresh(final_state.context().unwrap())
        } else {
            final_state == *self
        }
    }

    /// Makes sure the monitor runs. `mainloop` is the outcome of starting
    /// its main loop, given exactly when it was not started yet;
    /// `devices_known` tells whether the default sink and source are known.
    pub fn try_init_pulseaudio(
        &mut self,
        mainloop: Option<Result<(), String>>,
        devices_known: bool,
    ) -> (r: Result<(), PaError>)
        requires
            old(self).wf(),
            mainloop is Some <==> !old(self).started(),
        ensures
            final(self).wf(),
            r == old(self).init_outcome(mainloop, devices_known),
            old(self).after_init(*final(self), mainloop),
    {
        if !self.is_pa_inited() {
            match mainloop {
                Some(Err(m)) => {
                    return Err(PaError::Mainloop(m));
                },
                _ => {},
            }
            self.init_pa();
        } else if self.is_pa_empty() {
            return Err(PaError::Closed);
        }
        if !devices_known {
            return Err(PaError::Unavailable);
        }
        Ok(())
    }

    /// Drops the callback under `key`, while the monitor runs.
    pub fn unregister_callback(&mut self, key: i32)
        requires
            old(self).wf(),
        ensures
            final(self).wf(),
            final(self).started() == old(self).started(),
            match old(self).context() {
                Some(pa) => final(self).context() is Some && {
                    let now = final(self).context().unwrap();
                    &&& now.callbacks() == pa.callbacks().remove(key as i64)
                    &&& now.next_id() == pa.next_id()
                    &&& now.error_callbacks() == pa.error_callbacks()
                },
                None => final(self).context() is None,
            },
    {
        if !self.is_pa_empty() {
            let mut pa = self.ctx.take().unwrap();
            pa.remove_cb(key);
            self.ctx = Some(pa);
        }
    }

    /// Makes sure the monitor runs, as `try_init_pulseaudio` does with the
    /// outcome `mainloop` and the device states `sink` and `source` (known
    /// when both are given); then registers `cb` as `PA::add_cb` does and
    /// returns its id.
    pub fn register_callback<A: Copy>(
        &mut self,
        cb: C,
        error_cb: Option<E>,
        interest: Interest,
        mainloop: Option<Result<(), String>>,
        sink: Option<A>,
        source: Option<A>,
    ) -> (r: Result<i32, PaError>) where C: FnMut(A, Interest)
        requires
            old(self).wf(),
            mainloop is Some <==> !old(self).started(),
            old(self).context() is Some ==> old(self).context().unwrap().next_id() < i32::MAX,
            forall|a: A, m: Interest| call_requires(cb, (a, m)),
        ensures
            final(self).wf(),
            ({
                let start = old(self).init_outcome(mainloop, sink is Some && source is Some);
                match start {
                    Err(e) => r == Err::<i32, PaError>(e) && old(self).after_init(*final(self), mainloop),
                    Ok(_) => {
                        let (prev_cbs, prev_id, prev_err) = if old(self).started() {
                            let pa = old(self).context().unwrap();
                            (pa.callbacks(), pa.next_id(), pa.error_callbacks())
                        } else {
                            (Map::<i64, (C, Interest)>::empty(), 0i32, Seq::<E>::empty())
                        };
                        &&& r == Ok::<i32, PaError>(prev_id)
                        &&& final(self).started()
                        &&& final(self).context() is Some
                        &&& final(self).context().unwrap().callbacks() == prev_cbs.insert(
                            prev_id as i64,
                            (cb, interest),
                        )
                        &&& final(self).context().unwrap().next_id() == prev_id + 1
                        &&& final(self).context().unwrap().error_callbacks() == match error_cb {
                            Some(e) => prev_err.push(e),
                            None => prev_err,
                        }
                        &&& interest.sink ==> call_ensures(cb, (sink.unwrap(), Interest::sink_only()), ())
                        &&& interest.source ==> call_ensures(cb, (source.unwrap(), Interest::source_only()), ())
                    },
                }
            }),
    {
        self.try_init_pulseaudio(mainloop, sink.is_some() && source.is_some())?;
        assert(self.context() is Some);
        let mut pa = self.ctx.take().unwrap();
        let key = pa.add_cb(cb, error_cb, interest, sink.unwrap(), source.unwrap());
        self.ctx = Some(pa);
        Ok(key)
    }

    /// The monitor stopped on error `e`: its callbacks are dropped and its
    /// error callbacks told, once; it stays marked started.
    pub fn on_pa_error(&mut self, e: String) where E: FnMut(String)
        requires
            old(self).wf(),
            old(self).context() is Some ==> forall|i: int, m: String|
                0 <= i < old(self).context().unwrap().error_callbacks().len() ==> #[trigger] call_requires(
                    old(self).context().unwrap().error_callbacks()[i],
                    (m,),
                ),
        ensures
            final(self).wf(),
            final(self).started() == old(self).started(),
            final(self).context() is None,
            old(self).context() is Some ==> forall|i: int|
                0 <= i < old(self).context().unwrap().error_callbacks().len() ==> #[trigger] call_ensures(
                    old(self).context().unwrap().error_callbacks()[i],
                    (e,),
                    (),
                ),
    {
        match self.ctx.take() {
            Some(pa) => pa.error(e),
            None => {},
        }
    }

    /// Tells a change of kind `kind` to the running monitor's callbacks, as
    /// `PA::call` does.
    pub fn call_pa<A: Copy>(&mut self, kind: Interest, sink: A, source: A) where C: FnMut(A, Interest)
        requires
            old(self).wf(),
            old(self).context() is Some,
            callable::<C, A>(old(self).context().unwrap().callbacks()),
        ensures
            final(self).wf(),
            final(self).started() == old(self).started(),
            final(self).context() is Some,
            final(self).context().unwrap().callbacks() == old(self).context().unwrap().callbacks(),
            final(self).context().unwrap().next_id() == old(self).context().unwrap().next_id(),
            final(self).context().unwrap().error_callbacks() == old(self).context().unwrap().error_callbacks(),
            forall|k: i64| #[trigger] old(self).context().unwrap().callbacks().contains_key(k) && is_told(
                old(self).context().unwrap().callbacks()[k].1,
                kind,
            ) ==> call_ensures(
                old(self).context().unwrap().callbacks()[k].0,
                (told_state(kind, sink, source), kind),
                (),
            ),
    {
        let mut pa = self.ctx.take().unwrap();
        pa.call(kind, sink, source);
        self.ctx = Some(pa);
    }
}

/// Telling a change of kind `kind` to the callbacks under `ids` calls only
/// callbacks that follow that change, each with the change's kind, and
/// reaches every listed callback that follows it; with no id listed twice,
/// none is called twice.
pub proof fn lemma_told_calls_exactly<C>(ids: Seq<i64>, callbacks: Map<i64, (C, Interest)>, kind: Interest)
    ensures
        forall|j: int| 0 <= j < told_calls(ids, callbacks, kind).len() ==> {
            &&& ids.contains(#[trigger] told_calls(ids, callbacks, kind)[j].0)
            &&& callbacks.contains_key(told_calls(ids, callbacks, kind)[j].0)
            &&& is_told(callbacks[told_calls(ids, callbacks, kind)[j].0].1, kind)
            &&& told_calls(ids, callbacks, kind)[j].1 == kind
        },
        forall|k: i64| ids.contains(k) && callbacks.contains_key(k) && is_told(callbacks[k].1, kind) ==> exists|j: int|
            0 <= j < told_calls(ids, callbacks, kind).len() && #[trigger] told_calls(ids, callbacks, kind)[j].0 == k,
        ids.no_duplicates() ==> forall|j1: int, j2: int|
            0 <= j1 < j2 < told_calls(ids, callbacks, kind).len() ==> #[trigger] told_calls(ids, callbacks, kind)[j1].0
                != #[trigger] told_calls(ids, callbacks, kind)[j2].0,
    decreases ids.len(),
{
    if ids.len() > 0 {
        let front = ids.drop_last();
        let last = ids.last();
        lemma_told_calls_exactly(front, callbacks, kind);
        let rest = told_calls(front, callbacks, kind);
        let t = told_calls(ids, callbacks, kind);
        assert forall|j: int| 0 <= j < t.len() implies {
            &&& ids.contains(#[trigger] t[j].0)
            &&& callbacks.contains_key(t[j].0)
            &&& is_told(callbacks[t[j].0].1, kind)
            &&& t[j].1 == kind
        } by {
            if j < rest.len() {
                assert(t[j] == rest[j]);
                let i = choose|i: int| 0 <= i < front.len() && front[i] == rest[j].0;
                assert(ids[i] == front[i]);
            } else {
                assert(ids[ids.len() - 1] == last);
            }
        }
        assert forall|k: i64| ids.contains(k) && callbacks.contains_key(k) && is_told(callbacks[k].1, kind) implies exists|j: int|
            0 <= j < t.len() && #[trigger] t[j].0 == k by {
            let i = choose|i: int| 0 <= i < ids.len() && ids[i] == k;
            if i < ids.len() - 1 {
                assert(front[i] == k);
                assert(front.contains(k));
                let j = choose|j: int| 0 <= j < rest.len() && #[trigger] rest[j].0 == k;
                assert(t[j] == rest[j]);
            } else {
                assert(t[rest.len() as int].0 == k);
            }
        }
        if ids.no_duplicates() {
            assert(front.no_duplicates()) by {
                assert forall|a: int, b: int| 0 <= a < front.len() && 0 <= b < front.len() && a != b
                    implies front[a] != front[b] by {
                    assert(front[a] == ids[a] && front[b] == ids[b]);
                }
            }
            assert forall|j1: int, j2: int| 0 <= j1 < j2 < t.len() implies #[trigger] t[j1].0 != #[trigger] t[j2].0 by {
                assert(t[j1] == rest[j1]);
                if j2 < rest.len() {
                    assert(t[j2] == rest[j2]);
                } else {
                    assert(t[j2].0 == last);
                    let i = choose|i: int| 0 <= i < front.len() && front[i] == rest[j1].0;
                    assert(ids[i] == front[i] && ids[ids.len() - 1] == last);
                }
            }
        }
    }
}

/// `call(kind, ..)` calls only the callbacks that follow the change: no
/// callback that follows only the other kind of device is called, every
/// callback that follows the change is called exactly once, each told the
/// change's kind.
pub proof fn lemma_call_tells_followers_only<C, E>(pa: PA<C, E>, kind: Interest)
    requires
        pa.wf(),
    ensures
        ({
            let t = told_calls(pa.call_order(), pa.callbacks(), kind);
            &&& forall|j: int| 0 <= j < t.len() ==> {
                &&& pa.callbacks().contains_key(#[trigger] t[j].0)
                &&& is_told(pa.callbacks()[t[j].0].1, kind)
                &&& t[j].1 == kind
            }
            &&& forall|k: i64| pa.callbacks().contains_key(k) && !is_told(pa.callbacks()[k].1, kind) ==> forall|j: int|
                0 <= j < t.len() ==> #[trigger] t[j].0 != k
            &&& forall|k: i64| pa.callbacks().contains_key(k) && is_told(pa.callbacks()[k].1, kind) ==> exists|j: int|
                0 <= j < t.len() && #[trigger] t[j].0 == k
            &&& forall|j1: int, j2: int| 0 <= j1 < j2 < t.len() ==> #[trigger] t[j1].0 != #[trigger] t[j2].0
        }),
{
    pa.cbs.lemma_dom_is_ids();
    lemma_told_calls_exactly(pa.call_order(), pa.callbacks(), kind);
}

/// Unregistering the id that registering handed out gives back the
/// callbacks as they were: the new id was not in use.
pub proof fn lemma_unregister_undoes_register<C, E>(pa: PA<C, E>, cb: C, interest: Interest)
    requires
        pa.wf(),
    ensures
        !pa.callbacks().contains_key(pa.next_id() as i64),
        pa.callbacks().insert(pa.next_id() as i64, (cb, interest)).remove(pa.next_id() as i64)
            == pa.callbacks(),
{
    assert(pa.callbacks().insert(pa.next_id() as i64, (cb, interest)).remove(pa.next_id() as i64)
        =~= pa.callbacks());
}

} // verus!
