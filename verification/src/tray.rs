use vstd::prelude::*;
use crate::registry::IdMap;
use vstd::std_specs::convert::FromSpec;

verus! {

/// The tray's callbacks, each under its id.
pub struct TrayContext<C> {
    cbs: IdMap<C>,
    count: i32,
}

impl<C> TrayContext<C> {
    /// The id that the next callback gets.
    pub closed spec fn next_id(&self) -> i32 {
        self.count
    }

    /// The callbacks, by id.
    pub closed spec fn callbacks(&self) -> Map<i64, C> {
        self.cbs@
    }

    /// The ids in the order in which callbacks are called.
    pub closed spec fn call_order(&self) -> Seq<i64> {
        self.cbs.ids()
    }

    /// Ids are handed out from zero up, and every id in use was handed out.
    pub closed spec fn wf(&self) -> bool {
        &&& self.cbs.wf()
        &&& self.count >= 0
        &&& forall|k: i64| #[trigger] self.cbs@.contains_key(k) ==> 0 <= k < self.count
    }

    pub fn new() -> (r: Self)
        ensures
            r.wf(),
            r.next_id() == 0,
            r.callbacks() == Map::<i64, C>::empty(),
    {
        TrayContext { cbs: IdMap::new(), count: 0 }
    }

    /// The id that the next callback gets.
    pub fn next_key(&self) -> (r: i32)
        ensures
            r == self.next_id(),
    {
        self.count
    }

    /// Drops the callback under `key`, if there is one.
    pub fn remove_cb(&mut self, key: i32)
        requires
            old(self).wf(),
        ensures
            final(self).wf(),
            final(self).callbacks() == old(self).callbacks().remove(key as i64),
            final(self).next_id() == old(self).next_id(),
    {
        self.cbs.remove(&(key as i64));
    }

    /// Registers `cb` under a fresh id and returns the id. First `cb` is
    /// told, in order, the events that describe the tray's current items.
    pub fn add_cb<E>(&mut self, cb: C, current: &Vec<E>) -> (key: i32) where C: FnMut(&E)
        requires
            old(self).wf(),
            old(self).next_id() < i32::MAX,
            forall|e: E| call_requires(cb, (&e,)),
        ensures
            final(self).wf(),
            key == old(self).next_id(),
            !old(self).callbacks().contains_key(key as i64),
            final(self).callbacks() == old(self).callbacks().insert(key as i64, cb),
            final(self).next_id() == old(self).next_id() + 1,
            forall|i: int| 0 <= i < current@.len() ==> #[trigger] call_ensures(cb, (&current@[i],), ()),
    {
        let ghost given = cb;
        let mut cb = cb;
        let mut i: usize = 0;
        while i < current.len()
            invariant
                i <= current@.len(),
                cb == given,
                forall|e: E| call_requires(cb, (&e,)),
                forall|j: int| 0 <= j < i ==> #[trigger] call_ensures(cb, (&current@[j],), ()),
            decreases current@.len() - i,
        {
            cb(&current[i]);
            i += 1;
        }
        let key = self.count;
        self.count += 1;
        self.cbs.insert(key as i64, cb);
        key
    }

    /// Tells every callback, in call order, the event `e`.
    pub fn call<E>(&mut self, e: &E) where C: FnMut(&E)
        requires
            old(self).wf(),
            forall|k: i64, x: E| old(self).callbacks().contains_key(k) ==> #[trigger] call_requires(
                old(self).callbacks()[k],
                (&x,),
            ),
        ensures
            final(self).wf(),
            final(self).callbacks() == old(self).callbacks(),
            final(self).call_order() == old(self).call_order(),
            final(self).next_id() == old(self).next_id(),
            forall|k: i64| #[trigger] old(self).callbacks().contains_key(k) ==> call_ensures(
                old(self).callbacks()[k],
                (e,),
                (),
            ),
    {
        let n = self.cbs.len();
        let mut i: usize = 0;
        while i < n
            invariant
                self.wf(),
                n == self.call_order().len(),
                self.callbacks() == old(self).callbacks(),
                self.call_order() == old(self).call_order(),
                self.next_id() == old(self).next_id(),
                forall|k: i64, x: E| self.callbacks().contains_key(k) ==> #[trigger] call_requires(
                    self.callbacks()[k],
                    (&x,),
                ),
                forall|j: int| 0 <= j < i ==> #[trigger] call_ensures(
                    self.callbacks()[self.call_order()[j]],
                    (e,),
                    (),
                ),
            decreases n - i,
        {
            proof {
                self.cbs.lemma_view_by_position(i as int);
            }
            let f = self.cbs.value_at_mut(i);
            f(e);
            i += 1;
        }
        proof {
            self.cbs.lemma_dom_is_ids();
            assert forall|k: i64| #[trigger] old(self).callbacks().contains_key(k) implies call_ensures(
                old(self).callbacks()[k],
                (e,),
                (),
            ) by {
                let j = self.call_order().index_of(k);
                assert(call_ensures(self.callbacks()[self.call_order()[j]], (e,), ()));
            }
        }
    }
}

/// Registers a callback with the tray, as `TrayContext::add_cb` does.
pub fn register_tray<C, E>(ctx: &mut TrayContext<C>, cb: C, current: &Vec<E>) -> (key: i32) where C: FnMut(&E)
    requires
        old(ctx).wf(),
        old(ctx).next_id() < i32::MAX,
        forall|e: E| call_requires(cb, (&e,)),
    ensures
        final(ctx).wf(),
        key == old(ctx).next_id(),
        final(ctx).callbacks() == old(ctx).callbacks().insert(key as i64, cb),
        final(ctx).next_id() == old(ctx).next_id() + 1,
        forall|i: int| 0 <= i < current@.len() ==> #[trigger] call_ensures(cb, (&current@[i],), ()),
{
    ctx.add_cb(cb, current)
}

/// Drops the tray callback under `id`.
pub fn unregister_tray<C>(ctx: &mut TrayContext<C>, id: i32)
    requires
        old(ctx).wf(),
    ensures
        final(ctx).wf(),
        final(ctx).callbacks() == old(ctx).callbacks().remove(id as i64),
        final(ctx).next_id() == old(ctx).next_id(),
{
    ctx.remove_cb(id)
}

/// Whether the tray was started.
pub fn is_context_inited<C>(ctx: &Option<TrayContext<C>>) -> (r: bool)
    ensures
        r == (*ctx is Some),
{
    ctx.is_some()
}

/// Converts every item of a list, in order.
pub trait VecInto<D>: Sized {
    /// `r` holds the converted items of `self`, in order.
    spec fn converted(&self, r: Seq<D>) -> bool;

    fn vec_into(self) -> (r: Vec<D>)
        ensures
            self.converted(r@),
    ;
}

impl<E, D: From<E>> VecInto<D> for Vec<E> {
    /// As many items, each the conversion of the item at its place (where
    /// the conversion is specified).
    open spec fn converted(&self, r: Seq<D>) -> bool {
        &&& r.len() == self@.len()
        &&& <D as FromSpec<E>>::obeys_from_spec() ==> forall|i: int|
            0 <= i < r.len() ==> #[trigger] r[i] == <D as FromSpec<E>>::from_spec(self@[i])
    }

    fn vec_into(self) -> (r: Vec<D>) {
        let ghost src = self@;
        let mut r: Vec<D> = Vec::new();
        for e in it: self
            invariant
                it.seq() == src,
                r@.len() == it.index(),
                <D as FromSpec<E>>::obeys_from_spec() ==> forall|i: int|
                    0 <= i < r@.len() ==> #[trigger] r@[i] == <D as FromSpec<E>>::from_spec(src[i]),
        {
            r.push(D::from(e));
        }
        r
    }
}

/// Unregistering the id that registering handed out gives back the
/// callbacks as they were: the new id was not in use.
pub proof fn lemma_unregister_undoes_register<C>(ctx: TrayContext<C>, cb: C)
    requires
        ctx.wf(),
    ensures
        !ctx.callbacks().contains_key(ctx.next_id() as i64),
        ctx.callbacks().insert(ctx.next_id() as i64, cb).remove(ctx.next_id() as i64)
            == ctx.callbacks(),
{
    assert(ctx.callbacks().insert(ctx.next_id() as i64, cb).remove(ctx.next_id() as i64)
        =~= ctx.callbacks());
}

} // verus!
