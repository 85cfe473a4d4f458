use vstd::prelude::*;

verus! {

/// Which way a transition runs: `Forward` shows the widget, `Backward` hides it.
#[derive(Debug, Copy, Clone, PartialEq, Eq, Structural)]
pub enum TransitionDirection {
    Forward,
    Backward,
}

impl TransitionDirection {
    /// The opposite direction.
    pub open spec fn flipped(self) -> TransitionDirection {
        match self {
            TransitionDirection::Forward => TransitionDirection::Backward,
            TransitionDirection::Backward => TransitionDirection::Forward,
        }
    }

    /// `true` means forward, `false` means backward.
    pub open spec fn of_bool(x: bool) -> TransitionDirection {
        if x {
            TransitionDirection::Forward
        } else {
            TransitionDirection::Backward
        }
    }
}

impl core::ops::Not for TransitionDirection {
    type Output = TransitionDirection;

    fn not(self) -> (r: TransitionDirection) {
        match self {
            TransitionDirection::Forward => TransitionDirection::Backward,
            TransitionDirection::Backward => TransitionDirection::Forward,
        }
    }
}

impl vstd::std_specs::ops::NotSpecImpl for TransitionDirection {
    open spec fn obeys_not_spec() -> bool {
        true
    }

    open spec fn not_req(self) -> bool {
        true
    }

    open spec fn not_spec(self) -> TransitionDirection {
        self.flipped()
    }
}

impl From<bool> for TransitionDirection {
    fn from(x: bool) -> (r: TransitionDirection) {
        if x {
            TransitionDirection::Forward
        } else {
            TransitionDirection::Backward
        }
    }
}

impl vstd::std_specs::convert::FromSpecImpl<bool> for TransitionDirection {
    open spec fn obeys_from_spec() -> bool {
        true
    }

    open spec fn from_spec(x: bool) -> TransitionDirection {
        TransitionDirection::of_bool(x)
    }
}


/// How far a transition has advanced, in the same unit as `duration`:
/// `0` is fully hidden, `duration` is fully shown.
pub open spec fn spec_progress(direction: TransitionDirection, elapsed: u128, duration: u128) -> int {
    let shown: int = if elapsed < duration { elapsed as int } else { duration as int };
    match direction {
        TransitionDirection::Forward => shown,
        TransitionDirection::Backward => duration - shown,
    }
}

/// The elapsed time a transition restarts from when it turns around after
/// `passed` of a run that lasts `duration`.
pub open spec fn spec_reversed_elapsed(passed: u128, duration: u128) -> u128 {
    if passed < duration {
        (duration - passed) as u128
    } else {
        0
    }
}

/// Progress of a transition that has run for `elapsed` in `direction`
/// (the numerator of the transition's `y` over `duration`).
pub fn progress(direction: TransitionDirection, elapsed: u128, duration: u128) -> (r: u128)
    ensures
        r as int == spec_progress(direction, elapsed, duration),
        r <= duration,
{
    let shown = if elapsed < duration {
        elapsed
    } else {
        duration
    };
    match direction {
        TransitionDirection::Forward => shown,
        TransitionDirection::Backward => duration - shown,
    }
}

/// Absolute progress: the progress for a forward run, its complement for a
/// backward run.
pub fn abs_progress(direction: TransitionDirection, elapsed: u128, duration: u128) -> (r: u128)
    ensures
        r as int == match direction {
            TransitionDirection::Forward => spec_progress(direction, elapsed, duration),
            TransitionDirection::Backward => duration - spec_progress(direction, elapsed, duration),
        },
{
    let p = progress(direction, elapsed, duration);
    match direction {
        TransitionDirection::Forward => p,
        TransitionDirection::Backward => duration - p,
    }
}

/// Turns a transition towards `to_direction`. When the direction changes, the
/// transition restarts from the returned elapsed time, chosen so that the
/// visible progress does not jump; when it already runs that way, nothing
/// changes and `None` is returned.
pub fn set_direction(
    direction_state: &mut TransitionDirection,
    passed: u128,
    max_time: u128,
    to_direction: TransitionDirection,
) -> (r: Option<u128>)
    ensures
        *final(direction_state) == to_direction,
        *old(direction_state) == to_direction ==> r is None,
        *old(direction_state) != to_direction ==> r == Some(spec_reversed_elapsed(passed, max_time)),
{
    if *direction_state == to_direction {
        return None;
    }
    let t = if passed < max_time {
        max_time - passed
    } else {
        0
    };
    *direction_state = to_direction;
    Some(t)
}

/// Turning a transition around keeps its visible progress: the progress just
/// after `set_direction` equals the progress just before it.
pub proof fn lemma_turn_keeps_progress(
    direction: TransitionDirection,
    passed: u128,
    duration: u128,
)
    ensures
        spec_progress(
            direction.flipped(),
            spec_reversed_elapsed(passed, duration),
            duration,
        ) == spec_progress(direction, passed, duration),
{
}

/// A slot list of transitions: removed slots are emptied and remembered, and
/// the most recently freed slot is reused first.
pub struct TransitionStateList<T> {
    inner: Vec<Option<T>>,
    empties: Vec<usize>,
}

impl<T> TransitionStateList<T> {
    /// The slots, in index order.
    pub closed spec fn slots(&self) -> Seq<Option<T>> {
        self.inner@
    }

    /// The freed slot indices, the next one to reuse last.
    pub closed spec fn free_slots(&self) -> Seq<usize> {
        self.empties@
    }

    /// Every remembered free index names an existing slot.
    pub open spec fn wf(&self) -> bool {
        forall|i: int| 0 <= i < self.free_slots().len() ==> #[trigger] self.free_slots()[i] < self.slots().len()
    }

    pub fn new() -> (r: Self)
        ensures
            r.slots() == Seq::<Option<T>>::empty(),
            r.free_slots() == Seq::<usize>::empty(),
            r.wf(),
    {
        TransitionStateList { inner: Vec::new(), empties: Vec::new() }
    }

    /// Stores `item`, in the most recently freed slot if there is one and at
    /// the end otherwise, and returns its index.
    pub fn new_transition(&mut self, item: T) -> (index: usize)
        requires
            old(self).wf(),
            old(self).free_slots().len() == 0 ==> old(self).slots().len() < usize::MAX,
        ensures
            final(self).wf(),
            old(self).free_slots().len() > 0 ==> {
                &&& index == old(self).free_slots().last()
                &&& final(self).free_slots() == old(self).free_slots().drop_last()
                &&& final(self).slots() == old(self).slots().update(index as int, Some(item))
            },
            old(self).free_slots().len() == 0 ==> {
                &&& index == old(self).slots().len()
                &&& final(self).free_slots() == old(self).free_slots()
                &&& final(self).slots() == old(self).slots().push(Some(item))
            },
    {
        if self.empties.len() > 0 {
            let index = self.empties.pop().unwrap();
            assert(index == old(self).free_slots().last());
            self.inner.set(index, Some(item));
            index
        } else {
            self.inner.push(Some(item));
            self.inner.len() - 1
        }
    }

    /// Empties slot `id` (when it exists) and remembers `id` for reuse.
    pub fn remove_item(&mut self, id: usize)
        ensures
            final(self).slots() == if id < old(self).slots().len() {
                old(self).slots().update(id as int, None)
            } else {
                old(self).slots()
            },
            final(self).free_slots() == old(self).free_slots().push(id),
            old(self).wf() && id < old(self).slots().len() ==> final(self).wf(),
    {
        if id < self.inner.len() {
            self.inner.set(id, None);
        }
        self.empties.push(id);
    }

    /// Appends the given transitions as new slots.
    pub fn extend_list(&mut self, l: Vec<T>)
        ensures
            final(self).slots() == old(self).slots() + l@.map_values(|x: T| Some(x)),
            final(self).free_slots() == old(self).free_slots(),
            old(self).wf() ==> final(self).wf(),
    {
        let ghost old_inner = self.inner@;
        for x in it: l
            invariant
                self.inner@ == old_inner + it.seq().take(it.index() as int).map_values(|y: T| Some(y)),
                self.empties@ == old(self).empties@,
                it.seq() == l@,
        {
            proof {
                assert(it.seq().take(it.index() + 1).map_values(|y: T| Some(y))
                    == it.seq().take(it.index() as int).map_values(|y: T| Some(y)).push(Some(x)));
            }
            self.inner.push(Some(x));
        }
        proof {
            assert(l@.take(l@.len() as int) == l@);
        }
    }

    /// Number of slots, empty ones included.
    pub fn len(&self) -> (r: usize)
        ensures
            r == self.slots().len(),
    {
        self.inner.len()
    }

    /// The slot at `i`.
    pub fn get(&self, i: usize) -> (r: &Option<T>)
        requires
            i < self.slots().len(),
        ensures
            *r == self.slots()[i as int],
    {
        &self.inner[i]
    }
}

/// A slot freed by `remove_item` is the one the next `new_transition`
/// takes: removing slot `id` and then storing `item` puts `item` in slot
/// `id` and leaves the list of free slots as it was.
pub proof fn lemma_freed_slot_is_reused<T>(slots: Seq<Option<T>>, free: Seq<usize>, id: usize, item: T)
    requires
        id < slots.len(),
    ensures
        ({
            let slots1 = slots.update(id as int, None);
            let free1 = free.push(id);
            &&& free1.len() > 0
            &&& free1.last() == id
            &&& free1.drop_last() == free
            &&& slots1.update(free1.last() as int, Some(item)) == slots.update(id as int, Some(item))
        }),
{
    let slots1 = slots.update(id as int, None);
    let free1 = free.push(id);
    assert(free1.drop_last() =~= free);
    assert(slots1.update(id as int, Some(item)) =~= slots.update(id as int, Some(item)));
}

} // verus!
