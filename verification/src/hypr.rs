use vstd::prelude::*;
use crate::meminfo::{chars_of, decimal_value, digit_value, is_digit};
use crate::registry::IdMap;

verus! {

/// Workspace numbers as the bar sees them: the highest regular workspace,
/// the active one, and the one that was active before it.
#[derive(Debug, Clone, Copy, PartialEq, Eq, Structural)]
pub struct HyprGlobalData {
    pub max_workspace: i32,
    pub current_workspace: i32,
    pub last_workspace: i32,
}

/// The last positive id of the list, read from the end.
pub open spec fn last_positive(ids: Seq<i32>) -> Option<i32>
    decreases ids.len(),
{
    if ids.len() == 0 {
        None
    } else if ids.last() > 0 {
        Some(ids.last())
    } else {
        last_positive(ids.drop_last())
    }
}

/// The highest workspace: the last id of the workspace list that is
/// positive (special workspaces have negative ids), if there is one.
pub fn max_workspace_id(workspace_ids: &Vec<i32>) -> (r: Option<i32>)
    ensures
        r == last_positive(workspace_ids@),
{
    let mut i: usize = workspace_ids.len();
    proof {
        assert(workspace_ids@.take(i as int) =~= workspace_ids@);
    }
    while i > 0
        invariant
            i <= workspace_ids@.len(),
            last_positive(workspace_ids@) == last_positive(workspace_ids@.take(i as int)),
        decreases i,
    {
        let id = workspace_ids[i - 1];
        proof {
            assert(workspace_ids@.take(i as int).drop_last() =~= workspace_ids@.take(i - 1));
        }
        if id > 0 {
            return Some(id);
        }
        i -= 1;
    }
    proof {
        assert(workspace_ids@.take(0) =~= Seq::<i32>::empty());
    }
    None
}

/// Why a workspace name is not a number, as `i32::from_str` tells it.
#[derive(Debug, Clone, Copy, PartialEq, Eq, Structural)]
pub enum ParseIntError {
    Empty,
    InvalidDigit,
    PosOverflow,
    NegOverflow,
}

/// How many leading characters of `d` are decimal digits.
pub open spec fn digit_run(d: Seq<char>) -> nat
    decreases d.len(),
{
    if d.len() == 0 || !is_digit(d[0]) {
        0
    } else {
        1 + digit_run(d.drop_first())
    }
}

/// What `i32::from_str` gives: an optional sign, then decimal digits. The
/// digits are read from the left; a value past the range stops the reading
/// with an overflow, a character that is not a digit with `InvalidDigit`.
pub open spec fn parse_i32(s: Seq<char>) -> Result<i32, ParseIntError> {
    if s.len() == 0 {
        Err(ParseIntError::Empty)
    } else {
        let neg = s[0] == '-';
        let d = if s[0] == '+' || s[0] == '-' {
            s.drop_first()
        } else {
            s
        };
        if d.len() == 0 {
            Err(ParseIntError::InvalidDigit)
        } else {
            let p = digit_run(d);
            let v = decimal_value(d.take(p as int));
            if !neg && v > i32::MAX {
                Err(ParseIntError::PosOverflow)
            } else if neg && v > 0x8000_0000 {
                Err(ParseIntError::NegOverflow)
            } else if p < d.len() {
                Err(ParseIntError::InvalidDigit)
            } else if neg {
                Ok((-v) as i32)
            } else {
                Ok(v as i32)
            }
        }
    }
}

proof fn lemma_digit_run(d: Seq<char>, k: int)
    requires
        0 <= k <= d.len(),
        forall|j: int| 0 <= j < k ==> #[trigger] is_digit(d[j]),
    ensures
        k <= digit_run(d) <= d.len(),
        k < d.len() && !is_digit(d[k]) ==> digit_run(d) == k,
    decreases d.len(),
{
    if d.len() > 0 && k == 0 {
        lemma_digit_run(d.drop_first(), 0);
    }
    if k > 0 {
        assert forall|j: int| 0 <= j < k - 1 implies #[trigger] is_digit(d.drop_first()[j]) by {
            assert(is_digit(d[j + 1]));
        }
        lemma_digit_run(d.drop_first(), k - 1);
        assert(is_digit(d[0]));
    }
}

proof fn lemma_decimal_monotone(d: Seq<char>, a: int, b: int)
    requires
        0 <= a <= b <= d.len(),
    ensures
        decimal_value(d.take(a)) <= decimal_value(d.take(b)),
    decreases b - a,
{
    if a < b {
        lemma_decimal_monotone(d, a, b - 1);
        assert(d.take(b).drop_last() == d.take(b - 1));
    }
}

/// The character of decimal digit `d`.
pub open spec fn digit_char(d: nat) -> char {
    (48 + d) as char
}

/// The decimal text of `n`, without leading zeros.
pub open spec fn decimal_text(n: nat) -> Seq<char>
    decreases n,
{
    if n < 10 {
        seq![digit_char(n)]
    } else {
        decimal_text(n / 10).push(digit_char(n % 10))
    }
}

/// The decimal text of `v`, with a `-` in front when it is negative: the
/// name Hyprland gives a regular workspace.
pub open spec fn i32_text(v: i32) -> Seq<char> {
    if v < 0 {
        seq!['-'] + decimal_text((-v) as nat)
    } else {
        decimal_text(v as nat)
    }
}

proof fn lemma_decimal_text(n: nat)
    ensures
        decimal_text(n).len() >= 1,
        forall|j: int| 0 <= j < decimal_text(n).len() ==> #[trigger] is_digit(decimal_text(n)[j]),
        decimal_value(decimal_text(n)) == n,
    decreases n,
{
    if n < 10 {
        assert(digit_char(n) as u32 == 48 + n);
        assert(digit_value(digit_char(n)) == n);
        assert(decimal_text(n).drop_last() =~= Seq::<char>::empty());
        assert(decimal_value(Seq::<char>::empty()) == 0);
        assert(decimal_value(decimal_text(n)) == decimal_value(decimal_text(n).drop_last()) * 10 + digit_value(
            decimal_text(n).last(),
        ));
    } else {
        lemma_decimal_text(n / 10);
        let t = decimal_text(n / 10);
        let c = digit_char(n % 10);
        assert(c as u32 == 48 + n % 10);
        assert(decimal_text(n).drop_last() == t);
        assert(decimal_text(n).last() == c);
        assert forall|j: int| 0 <= j < decimal_text(n).len() implies #[trigger] is_digit(decimal_text(n)[j]) by {
            if j < t.len() {
                assert(decimal_text(n)[j] == t[j]);
            }
        }
        assert(digit_value(c) == n % 10);
        assert(decimal_value(decimal_text(n)) == decimal_value(t) * 10 + digit_value(c));
        assert((n / 10) * 10 + n % 10 == n) by (nonlinear_arith);
    }
}

/// A regular workspace's name is read back as its number: the decimal text
/// of any `i32` parses to that `i32`.
pub proof fn lemma_parse_decimal_text(v: i32)
    ensures
        parse_i32(i32_text(v)) == Ok::<i32, ParseIntError>(v),
{
    let s = i32_text(v);
    if v < 0 {
        let m = (-v) as nat;
        lemma_decimal_text(m);
        let d = decimal_text(m);
        assert(s.drop_first() =~= d);
        lemma_digit_run(d, d.len() as int);
        assert(d.take(d.len() as int) =~= d);
        assert(s[0] == '-');
    } else {
        let m = v as nat;
        lemma_decimal_text(m);
        let d = decimal_text(m);
        lemma_digit_run(d, d.len() as int);
        assert(d.take(d.len() as int) =~= d);
        assert(is_digit(s[0]));
    }
}

/// `i32::from_str` of `s`.
pub fn parse_i32_str(s: &str) -> (r: Result<i32, ParseIntError>)
    ensures
        r == parse_i32(s@),
{
    let cs = chars_of(s);
    if cs.len() == 0 {
        return Err(ParseIntError::Empty);
    }
    let neg = cs[0] == '-';
    let start: usize = if cs[0] == '+' || cs[0] == '-' {
        1
    } else {
        0
    };
    let ghost d = if cs@[0] == '+' || cs@[0] == '-' {
        cs@.drop_first()
    } else {
        cs@
    };
    proof {
        assert(d == cs@.skip(start as int));
    }
    if start == cs.len() {
        return Err(ParseIntError::InvalidDigit);
    }
    let bound: u64 = if neg {
        0x8000_0000
    } else {
        0x7fff_ffff
    };
    let mut v: u64 = 0;
    let mut k: usize = start;
    while k < cs.len()
        invariant
            start <= k <= cs@.len(),
            start < cs@.len(),
            d == cs@.skip(start as int),
            neg == (cs@[0] == '-'),
            cs@ == s@,
            start == (if cs@[0] == '+' || cs@[0] == '-' { 1usize } else { 0usize }),
            forall|j: int| 0 <= j < k - start ==> #[trigger] is_digit(d[j]),
            v == decimal_value(d.take(k - start)),
            v <= bound,
            bound == if neg { 0x8000_0000u64 } else { 0x7fff_ffffu64 },
        decreases cs@.len() - k,
    {
        let c = cs[k];
        let u = c as u32;
        if !(48 <= u && u <= 57) {
            proof {
                assert(d[k - start] == c);
                lemma_digit_run(d, k - start);
                assert(digit_run(d) == k - start);
                assert(d.len() > 0);
                assert(decimal_value(d.take(digit_run(d) as int)) == v);
                assert(s@.len() > 0);
                let dd = if s@[0] == '+' || s@[0] == '-' { s@.drop_first() } else { s@ };
                assert(dd == d);
            }
            return Err(ParseIntError::InvalidDigit);
        }
        let dv = (u - 48) as u64;
        proof {
            assert(d.take(k - start + 1).drop_last() == d.take(k - start));
            assert(d.take(k - start + 1).last() == c);
            assert(digit_value(c) == dv);
        }
        v = v * 10 + dv;
        k = k + 1;
        if v > bound {
            proof {
                lemma_digit_run(d, k - start);
                lemma_decimal_monotone(d, k - start, digit_run(d) as int);
                let dd = if s@[0] == '+' || s@[0] == '-' { s@.drop_first() } else { s@ };
                assert(dd == d);
            }
            if neg {
                return Err(ParseIntError::NegOverflow);
            } else {
                return Err(ParseIntError::PosOverflow);
            }
        }
    }
    proof {
        lemma_digit_run(d, d.len() as int);
        assert(d.take(d.len() as int) == d);
    }
    if neg {
        Ok((0 - (v as i64)) as i32)
    } else {
        Ok(v as i32)
    }
}

/// The number of a regular workspace (given by its name), and `None` for a
/// special one.
pub fn regular_to_i32(regular_name: Option<&str>) -> (r: Option<Result<i32, ParseIntError>>)
    ensures
        r == match regular_name {
            Some(name) => Some(parse_i32(name@)),
            None => None,
        },
{
    match regular_name {
        Some(name) => Some(parse_i32_str(name)),
        None => None,
    }
}

impl HyprGlobalData {
    /// The data after a reload from the workspace list and the active
    /// workspace: `None` when no regular workspace is listed.
    pub open spec fn reloaded(self, workspace_ids: Seq<i32>, active: i32) -> Option<Self> {
        match last_positive(workspace_ids) {
            Some(m) => Some(HyprGlobalData { max_workspace: m, current_workspace: active, ..self }),
            None => None,
        }
    }

    /// The data after an event: a workspace switch moves the active
    /// workspace; a window change leaves the data as it is.
    pub open spec fn after_event(self, e: HyprEvent) -> Self {
        match e {
            HyprEvent::Workspace(s) => HyprGlobalData {
                max_workspace: self.max_workspace,
                current_workspace: s,
                last_workspace: self.current_workspace,
            },
            HyprEvent::ActiveWindow => self,
        }
    }

    /// Starts from zeros and reloads from the workspace list and the active
    /// workspace; `None` when no regular workspace is listed.
    pub fn new(workspace_ids: &Vec<i32>, active: i32) -> (r: Option<Self>)
        ensures
            r == (HyprGlobalData { max_workspace: 0, current_workspace: 0, last_workspace: 0 }).reloaded(
                workspace_ids@,
                active,
            ),
    {
        let mut s = HyprGlobalData { max_workspace: 0, current_workspace: 0, last_workspace: 0 };
        if s.reload_max_worksapce(workspace_ids, active) {
            Some(s)
        } else {
            None
        }
    }

    /// The active workspace becomes `id`; the one before becomes the last.
    pub fn move_current(&mut self, id: i32)
        ensures
            *final(self) == (HyprGlobalData {
                max_workspace: old(self).max_workspace,
                current_workspace: id,
                last_workspace: old(self).current_workspace,
            }),
    {
        self.last_workspace = self.current_workspace;
        self.current_workspace = id;
    }

    /// Takes the highest workspace from the list and the active one from
    /// `active`. Returns `false`, and changes nothing, when the list holds no
    /// regular workspace.
    pub fn reload_max_worksapce(&mut self, workspace_ids: &Vec<i32>, active: i32) -> (ok: bool)
        ensures
            ok == old(self).reloaded(workspace_ids@, active).is_some(),
            ok ==> Some(*final(self)) == old(self).reloaded(workspace_ids@, active),
            !ok ==> *final(self) == *old(self),
    {
        match max_workspace_id(workspace_ids) {
            Some(id) => {
                self.max_workspace = id;
                self.current_workspace = active;
                true
            },
            None => false,
        }
    }
}

/// What the workspace listener hands on: a switch of the active workspace,
/// or a change of the active window (which moves no workspace).
#[derive(Debug, Clone, Copy, PartialEq, Eq, Structural)]
pub enum HyprEvent {
    Workspace(i32),
    ActiveWindow,
}

/// The listener's state: the callbacks under their ids, the next id to hand
/// out, and the workspace data.
pub struct HyprListenerCtx<C> {
    id_cache: u32,
    cb: IdMap<C>,
    data: HyprGlobalData,
}

impl<C> HyprListenerCtx<C> {
    /// The id that the next callback gets.
    pub closed spec fn next_id(&self) -> u32 {
        self.id_cache
    }

    /// The workspace data handed to the callbacks.
    pub closed spec fn current_data(&self) -> HyprGlobalData {
        self.data
    }

    /// The callbacks, by id.
    pub closed spec fn callbacks(&self) -> Map<i64, C> {
        self.cb@
    }

    /// The callbacks in the order in which they are called.
    pub closed spec fn call_order(&self) -> Seq<i64> {
        self.cb.ids()
    }

    /// Every callback id was handed out before the next one.
    pub closed spec fn wf(&self) -> bool {
        &&& self.cb.wf()
        &&& forall|k: i64| #[trigger] self.cb@.contains_key(k) ==> 0 <= k < self.id_cache
    }

    pub fn new(data: HyprGlobalData) -> (r: Self)
        ensures
            r.wf(),
            r.next_id() == 0,
            r.callbacks() == Map::<i64, C>::empty(),
            r.current_data() == data,
    {
        HyprListenerCtx { id_cache: 0, cb: IdMap::new(), data }
    }

    /// Registers `cb` under a fresh id and returns the id.
    pub fn add_cb(&mut self, cb: C) -> (id: u32)
        requires
            old(self).wf(),
            old(self).next_id() < u32::MAX,
        ensures
            final(self).wf(),
            id == old(self).next_id(),
            !old(self).callbacks().contains_key(id as i64),
            final(self).callbacks() == old(self).callbacks().insert(id as i64, cb),
            final(self).next_id() == old(self).next_id() + 1,
            final(self).current_data() == old(self).current_data(),
    {
        let id = self.id_cache;
        self.cb.insert(id as i64, cb);
        self.id_cache += 1;
        id
    }

    /// Drops the callback under `id`, if there is one.
    pub fn remove_cb(&mut self, id: u32)
        requires
            old(self).wf(),
        ensures
            final(self).wf(),
            final(self).callbacks() == old(self).callbacks().remove(id as i64),
            final(self).next_id() == old(self).next_id(),
            final(self).current_data() == old(self).current_data(),
    {
        self.cb.remove(&(id as i64));
    }

    /// The workspace data handed to the callbacks.
    pub fn data(&self) -> (d: HyprGlobalData)
        ensures
            d == self.current_data(),
    {
        self.data
    }

    /// The id that the next callback gets.
    pub fn next_key(&self) -> (r: u32)
        ensures
            r == self.next_id(),
    {
        self.id_cache
    }

    /// Number of callbacks.
    pub fn len(&self) -> (n: usize)
        requires
            self.wf(),
        ensures
            n == self.call_order().len(),
            n == self.callbacks().dom().len(),
    {
        self.cb.len()
    }

    /// The callback at position `i` of the call order, for calling.
    pub fn callback_at_mut(&mut self, i: usize) -> (r: &mut C)
        requires
            old(self).wf(),
            i < old(self).call_order().len(),
        ensures
            *r == old(self).callbacks()[old(self).call_order()[i as int]],
            final(self).wf(),
            final(self).call_order() == old(self).call_order(),
            final(self).callbacks() == old(self).callbacks().insert(
                old(self).call_order()[i as int],
                *final(r),
            ),
            final(self).next_id() == old(self).next_id(),
            final(self).current_data() == old(self).current_data(),
    {
        proof {
            self.cb.lemma_view_by_position(i as int);
        }
        self.cb.value_at_mut(i)
    }
}

impl<C: FnMut(&HyprGlobalData)> HyprListenerCtx<C> {
    /// Applies an event to the workspace data (a workspace switch moves the
    /// active workspace; a window change leaves the data as it is), then
    /// calls every callback with the new data.
    pub fn call_event(&mut self, e: HyprEvent)
        requires
            old(self).wf(),
            forall|k: i64| #[trigger] old(self).callbacks().contains_key(k) ==> call_requires(
                old(self).callbacks()[k],
                (&old(self).current_data().after_event(e),),
            ),
        ensures
            final(self).wf(),
            final(self).current_data() == old(self).current_data().after_event(e),
            final(self).callbacks() == old(self).callbacks(),
            final(self).call_order() == old(self).call_order(),
            final(self).next_id() == old(self).next_id(),
            forall|k: i64| #[trigger] old(self).callbacks().contains_key(k) ==> call_ensures(
                old(self).callbacks()[k],
                (&final(self).current_data(),),
                (),
            ),
    {
        match e {
            HyprEvent::Workspace(s) => self.data.move_current(s),
            HyprEvent::ActiveWindow => {},
        }
        assert(self.callbacks() == old(self).callbacks());
        self.call();
    }

    /// Reloads the workspace data from the workspace list and the active
    /// workspace, then calls every callback with the new data. A list
    /// without a regular workspace is a fatal error of the listener, and is
    /// left out.
    pub fn reload(&mut self, workspace_ids: &Vec<i32>, active: i32)
        requires
            old(self).wf(),
            old(self).current_data().reloaded(workspace_ids@, active) is Some,
            forall|k: i64| #[trigger] old(self).callbacks().contains_key(k) ==> call_requires(
                old(self).callbacks()[k],
                (&old(self).current_data().reloaded(workspace_ids@, active).unwrap(),),
            ),
        ensures
            final(self).wf(),
            Some(final(self).current_data()) == old(self).current_data().reloaded(workspace_ids@, active),
            final(self).callbacks() == old(self).callbacks(),
            final(self).call_order() == old(self).call_order(),
            final(self).next_id() == old(self).next_id(),
            forall|k: i64| #[trigger] old(self).callbacks().contains_key(k) ==> call_ensures(
                old(self).callbacks()[k],
                (&final(self).current_data(),),
                (),
            ),
    {
        self.data.reload_max_worksapce(workspace_ids, active);
        assert(self.callbacks() == old(self).callbacks());
        self.call();
    }

    /// Calls every callback, in call order, with the workspace data.
    pub fn call(&mut self)
        requires
            old(self).wf(),
            forall|k: i64| #[trigger] old(self).callbacks().contains_key(k) ==> call_requires(
                old(self).callbacks()[k],
                (&old(self).current_data(),),
            ),
        ensures
            final(self).wf(),
            final(self).callbacks() == old(self).callbacks(),
            final(self).call_order() == old(self).call_order(),
            final(self).current_data() == old(self).current_data(),
            final(self).next_id() == old(self).next_id(),
            forall|k: i64| #[trigger] old(self).callbacks().contains_key(k) ==> call_ensures(
                old(self).callbacks()[k],
                (&old(self).current_data(),),
                (),
            ),
    {
        let n = self.len();
        let mut i: usize = 0;
        while i < n
            invariant
                self.wf(),
                n == self.call_order().len(),
                self.callbacks() == old(self).callbacks(),
                self.call_order() == old(self).call_order(),
                self.current_data() == old(self).current_data(),
                self.next_id() == old(self).next_id(),
                forall|k: i64| #[trigger] self.callbacks().contains_key(k) ==> call_requires(
                    self.callbacks()[k],
                    (&self.current_data(),),
                ),
                forall|j: int| 0 <= j < i ==> #[trigger] call_ensures(
                    self.callbacks()[self.call_order()[j]],
                    (&self.current_data(),),
                    (),
                ),
            decreases n - i,
        {
            let d = self.data;
            proof {
                self.cb.lemma_view_by_position(i as int);
            }
            let f = self.callback_at_mut(i);
            f(&d);
            i += 1;
        }
        proof {
            assert forall|k: i64| #[trigger] old(self).callbacks().contains_key(k) implies call_ensures(
                old(self).callbacks()[k],
                (&old(self).current_data(),),
                (),
            ) by {
                self.cb.lemma_dom_is_ids();
                let j = self.call_order().index_of(k);
                assert(call_ensures(self.callbacks()[self.call_order()[j]], (&self.current_data(),), ()));
            }
        }
    }
}

/// Registers a callback with the listener; returns its id and the data it
/// starts from.
pub fn register_hypr_event_callback<C>(ctx: &mut HyprListenerCtx<C>, cb: C) -> (r: (u32, HyprGlobalData))
    requires
        old(ctx).wf(),
        old(ctx).next_id() < u32::MAX,
    ensures
        final(ctx).wf(),
        r.0 == old(ctx).next_id(),
        r.1 == old(ctx).current_data(),
        final(ctx).callbacks() == old(ctx).callbacks().insert(r.0 as i64, cb),
        final(ctx).next_id() == old(ctx).next_id() + 1,
        final(ctx).current_data() == old(ctx).current_data(),
{
    let id = ctx.add_cb(cb);
    (id, ctx.data())
}

/// Drops the callback under `id` from the listener.
pub fn unregister_hypr_event_callback<C>(ctx: &mut HyprListenerCtx<C>, id: u32)
    requires
        old(ctx).wf(),
    ensures
        final(ctx).wf(),
        final(ctx).callbacks() == old(ctx).callbacks().remove(id as i64),
        final(ctx).next_id() == old(ctx).next_id(),
        final(ctx).current_data() == old(ctx).current_data(),
{
    ctx.remove_cb(id)
}

/// A callback registered under `id` stays registered, with itself under
/// `id`, when any other id is unregistered; events and reloads keep the
/// callbacks and call each of them, so it is called on every later event
/// and reload until its own id is unregistered.
pub proof fn lemma_registered_until_unregistered<C>(callbacks: Map<i64, C>, id: i64, cb: C, other: i64)
    requires
        other != id,
    ensures
        callbacks.insert(id, cb).remove(other).contains_key(id),
        callbacks.insert(id, cb).remove(other)[id] == cb,
{
}

/// Unregistering the id that registering handed out gives back the
/// callbacks as they were: the new id was not in use.
pub proof fn lemma_unregister_undoes_register<C>(ctx: HyprListenerCtx<C>, cb: C)
    requires
        ctx.wf(),
    ensures
        !ctx.callbacks().contains_key(ctx.next_id() as i64),
        ctx.callbacks().insert(ctx.next_id() as i64, cb).remove(ctx.next_id() as i64)
            == ctx.callbacks(),
{
    assert(ctx.callbacks().insert(ctx.next_id() as i64, cb).remove(ctx.next_id() as i64)
        =~= ctx.callbacks());
}

} // verus!
