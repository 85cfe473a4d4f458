use vstd::prelude::*;

use crate::transition::TransitionDirection;

verus! {

/// The middle mouse button, as GDK numbers it.
pub const BUTTON_MIDDLE: u32 = 2;

/// A mouse event a widget reacts to (positions are kept by the caller).
#[derive(Debug, Clone, Copy, PartialEq, Eq, Structural)]
pub enum MouseEventKind {
    Press(u32),
    Release(u32),
    Enter,
    Leave,
    Motion,
    Pin,
    Unpin,
    Pop,
    Unpop,
}

/// What the caller has to do after a mouse state change, in order.
#[derive(Debug, Clone, Copy, PartialEq, Eq, Structural)]
pub enum MouseAction {
    /// Turn the widget's transition towards this direction.
    SetDirection(TransitionDirection),
    /// Hand this event to the widget's event callback.
    Emit(MouseEventKind),
    /// Start the one-second pop timer; when it fires, call `pop_timeout` with this ticket.
    StartPopTimer(u64),
    /// Mouse debugging is on: report that this button was pressed.
    DebugPress(u32),
    /// Mouse debugging is on: report that this button was released.
    DebugRelease(u32),
}

/// Hover, press, pin and pop state of a widget, and the rules that decide
/// when it slides in or out.
#[derive(Debug, Clone, Copy, PartialEq, Eq, Structural)]
pub struct MouseState {
    pub hovering: bool,
    pub pressing: Option<u32>,
    pub mouse_debug: bool,
    pub pin_state: bool,
    /// The ticket of the pop that is still pending, if any.
    pub pop_state: Option<u64>,
    pub pop_counter: u64,
    pub enable_pin: bool,
    pub enable_pop: bool,
    pub enable_hover: bool,
}

pub type Step = (MouseState, Seq<MouseAction>);

impl MouseState {
    pub open spec fn pin_enabled(self) -> bool {
        self.enable_pin
    }

    pub open spec fn pop_enabled(self) -> bool {
        self.enable_pop
    }

    pub open spec fn hover_enabled(self) -> bool {
        self.enable_hover
    }

    pub open spec fn next_pop_ticket(self) -> u64 {
        self.pop_counter.wrapping_add(1)
    }

    /// Turning the transition drops any pending pop.
    pub open spec fn spec_set_ts_dir(self, dir: TransitionDirection) -> Step {
        (MouseState { pop_state: None, ..self }, seq![MouseAction::SetDirection(dir)])
    }

    pub open spec fn spec_set_pin(self, pin: bool) -> Step {
        if !self.pin_enabled() || self.pin_state == pin {
            (self, seq![])
        } else {
            let s1 = MouseState { pin_state: pin, ..self };
            let (s2, a) = if pin {
                s1.spec_set_ts_dir(TransitionDirection::Forward)
            } else if !self.hovering && self.pressing is None && self.pop_state is None {
                s1.spec_set_ts_dir(TransitionDirection::Backward)
            } else {
                (s1, seq![])
            };
            (
                s2,
                a.push(
                    MouseAction::Emit(
                        if pin {
                            MouseEventKind::Pin
                        } else {
                            MouseEventKind::Unpin
                        },
                    ),
                ),
            )
        }
    }

    pub open spec fn spec_toggle_pin(self) -> Step {
        if !self.pin_enabled() {
            (self, seq![])
        } else {
            self.spec_set_pin(!self.pin_state)
        }
    }

    pub open spec fn spec_pop(self) -> Step {
        if !self.pop_enabled() {
            (self, seq![])
        } else {
            let (s1, a) = self.spec_set_ts_dir(TransitionDirection::Forward);
            let ticket = self.next_pop_ticket();
            (
                s1.with_pop(ticket),
                a + seq![
                    MouseAction::StartPopTimer(ticket),
                    MouseAction::Emit(MouseEventKind::Pop),
                ],
            )
        }
    }

    pub open spec fn with_pop(self, ticket: u64) -> MouseState {
        MouseState { pop_state: Some(ticket), pop_counter: ticket, ..self }
    }

    pub open spec fn spec_pop_timeout(self, ticket: u64) -> Step {
        if self.pop_state != Some(ticket) {
            (self, seq![])
        } else {
            let (s1, a) = if !self.hovering && self.pressing is None && !self.pin_state {
                self.spec_set_ts_dir(TransitionDirection::Backward)
            } else {
                (self, seq![])
            };
            (s1, a.push(MouseAction::Emit(MouseEventKind::Unpop)))
        }
    }

    pub open spec fn spec_press(self, p: u32) -> Step {
        let dbg: Seq<MouseAction> = if self.mouse_debug {
            seq![MouseAction::DebugPress(p)]
        } else {
            seq![]
        };
        if self.pressing is None {
            (
                MouseState { pressing: Some(p), ..self },
                dbg.push(MouseAction::Emit(MouseEventKind::Press(p))),
            )
        } else {
            (self, dbg)
        }
    }

    pub open spec fn spec_unpress(self, p: u32) -> Step {
        let dbg: Seq<MouseAction> = if self.mouse_debug {
            seq![MouseAction::DebugRelease(p)]
        } else {
            seq![]
        };
        let (s1, a1) = if self.pin_enabled() && p == BUTTON_MIDDLE {
            self.spec_toggle_pin()
        } else {
            (self, seq![])
        };
        let (s2, a2) = if !s1.pin_state && !s1.hovering {
            s1.spec_set_ts_dir(TransitionDirection::Backward)
        } else {
            (s1, seq![])
        };
        if s2.pressing == Some(p) {
            (
                MouseState { pressing: None, ..s2 },
                dbg + a1 + a2.push(MouseAction::Emit(MouseEventKind::Release(p))),
            )
        } else {
            (s2, dbg + a1 + a2)
        }
    }

    pub open spec fn spec_hover_enter(self) -> Step {
        let s1 = MouseState { hovering: true, ..self };
        let (s2, a) = if !self.pin_state {
            s1.spec_set_ts_dir(TransitionDirection::Forward)
        } else {
            (s1, seq![])
        };
        (s2, a.push(MouseAction::Emit(MouseEventKind::Enter)))
    }

    pub open spec fn spec_hover_leave(self) -> Step {
        let s1 = MouseState { hovering: false, ..self };
        let (s2, a) = if !self.pin_state && self.pressing is None {
            s1.spec_set_ts_dir(TransitionDirection::Backward)
        } else {
            (s1, seq![])
        };
        (s2, a.push(MouseAction::Emit(MouseEventKind::Leave)))
    }

    /// A widget that is neither hovered, pressed, pinned nor popped.
    pub fn new(enable_pin: bool, enable_pop: bool, enable_hover: bool, mouse_debug: bool) -> (r: Self)
        ensures
            !r.hovering,
            r.pressing is None,
            !r.pin_state,
            r.pop_state is None,
            r.mouse_debug == mouse_debug,
            r.pin_enabled() == enable_pin,
            r.pop_enabled() == enable_pop,
            r.hover_enabled() == enable_hover,
    {
        MouseState {
            hovering: false,
            pressing: None,
            mouse_debug,
            pin_state: false,
            pop_state: None,
            pop_counter: 0,
            enable_pin,
            enable_pop,
            enable_hover,
        }
    }

    fn set_ts_dir(&mut self, dir: TransitionDirection, acts: &mut Vec<MouseAction>)
        ensures
            *final(self) == old(self).spec_set_ts_dir(dir).0,
            final(acts)@ == old(acts)@ + old(self).spec_set_ts_dir(dir).1,
    {
        self.pop_state = None;
        acts.push(MouseAction::SetDirection(dir));
    }

    fn set_pin_into(&mut self, pin: bool, acts: &mut Vec<MouseAction>)
        ensures
            *final(self) == old(self).spec_set_pin(pin).0,
            final(acts)@ == old(acts)@ + old(self).spec_set_pin(pin).1,
    {
        if !self.enable_pin {
            proof {
                assert(old(acts)@ + seq![] == old(acts)@);
            }
            return;
        }
        if self.pin_state != pin {
            let ghost a0 = acts@;
            self.pin_state = pin;
            if pin {
                self.set_ts_dir(TransitionDirection::Forward, acts);
            } else if !self.hovering && self.pressing.is_none() && self.pop_state.is_none() {
                self.set_ts_dir(TransitionDirection::Backward, acts);
            }
            let ghost a1 = acts@;
            acts.push(
                MouseAction::Emit(
                    if pin {
                        MouseEventKind::Pin
                    } else {
                        MouseEventKind::Unpin
                    },
                ),
            );
            proof {
                assert(acts@ == a0 + old(self).spec_set_pin(pin).1);
            }
        } else {
            proof {
                assert(old(acts)@ + seq![] == old(acts)@);
            }
        }
    }

    fn toggle_pin_into(&mut self, acts: &mut Vec<MouseAction>)
        ensures
            *final(self) == old(self).spec_toggle_pin().0,
            final(acts)@ == old(acts)@ + old(self).spec_toggle_pin().1,
    {
        if !self.enable_pin {
            proof {
                assert(old(acts)@ + seq![] == old(acts)@);
            }
            return;
        }
        let p = !self.pin_state;
        self.set_pin_into(p, acts);
    }

    /// Pins or unpins the widget (when pinning is enabled).
    pub fn set_pin(&mut self, pin: bool) -> (r: Vec<MouseAction>)
        ensures
            (*final(self), r@) == old(self).spec_set_pin(pin),
    {
        let mut acts = Vec::new();
        self.set_pin_into(pin, &mut acts);
        proof {
            assert(seq![] + old(self).spec_set_pin(pin).1 == old(self).spec_set_pin(pin).1);
        }
        acts
    }

    /// Flips the pin (when pinning is enabled).
    pub fn toggle_pin(&mut self) -> (r: Vec<MouseAction>)
        ensures
            (*final(self), r@) == old(self).spec_toggle_pin(),
    {
        let mut acts = Vec::new();
        self.toggle_pin_into(&mut acts);
        proof {
            assert(seq![] + old(self).spec_toggle_pin().1 == old(self).spec_toggle_pin().1);
        }
        acts
    }

    /// Shows the widget for a moment (when popping is enabled): it slides in,
    /// and a timer is started after which it may slide out again.
    pub fn pop(&mut self) -> (r: Vec<MouseAction>)
        ensures
            (*final(self), r@) == old(self).spec_pop(),
    {
        let mut acts = Vec::new();
        if !self.enable_pop {
            return acts;
        }
        self.set_ts_dir(TransitionDirection::Forward, &mut acts);
        let ticket = self.pop_counter.wrapping_add(1);
        self.pop_counter = ticket;
        self.pop_state = Some(ticket);
        acts.push(MouseAction::StartPopTimer(ticket));
        acts.push(MouseAction::Emit(MouseEventKind::Pop));
        proof {
            assert(acts@ == old(self).spec_pop().1);
        }
        acts
    }

    /// The pop timer with this ticket fired. It counts only if that pop is
    /// still pending: the widget then slides out unless it is hovered,
    /// pressed or pinned.
    pub fn pop_timeout(&mut self, ticket: u64) -> (r: Vec<MouseAction>)
        ensures
            (*final(self), r@) == old(self).spec_pop_timeout(ticket),
    {
        let mut acts = Vec::new();
        if self.pop_state != Some(ticket) {
            return acts;
        }
        if !self.hovering && self.pressing.is_none() && !self.pin_state {
            self.set_ts_dir(TransitionDirection::Backward, &mut acts);
        }
        acts.push(MouseAction::Emit(MouseEventKind::Unpop));
        proof {
            assert(acts@ == old(self).spec_pop_timeout(ticket).1);
        }
        acts
    }

    /// A mouse button was pressed.
    pub fn press(&mut self, p: u32) -> (r: Vec<MouseAction>)
        ensures
            (*final(self), r@) == old(self).spec_press(p),
    {
        let mut acts = Vec::new();
        if self.mouse_debug {
            acts.push(MouseAction::DebugPress(p));
        }
        if self.pressing.is_none() {
            self.pressing = Some(p);
            acts.push(MouseAction::Emit(MouseEventKind::Press(p)));
        }
        proof {
            assert(acts@ == old(self).spec_press(p).1);
        }
        acts
    }

    /// A mouse button was released.
    pub fn unpress(&mut self, p: u32) -> (r: Vec<MouseAction>)
        ensures
            (*final(self), r@) == old(self).spec_unpress(p),
    {
        let mut acts = Vec::new();
        if self.mouse_debug {
            acts.push(MouseAction::DebugRelease(p));
        }
        let ghost dbg = acts@;
        if self.enable_pin && p == BUTTON_MIDDLE {
            self.toggle_pin_into(&mut acts);
        } else {
            proof {
                assert(acts@ + seq![] == acts@);
            }
        }
        let ghost s1 = *self;
        let ghost after1 = acts@;
        if !self.pin_state && !self.hovering {
            self.set_ts_dir(TransitionDirection::Backward, &mut acts);
        } else {
            proof {
                assert(acts@ + seq![] == acts@);
            }
        }
        let ghost after2 = acts@;
        if self.pressing == Some(p) {
            self.pressing = None;
            acts.push(MouseAction::Emit(MouseEventKind::Release(p)));
        }
        proof {
            let (t1, b1) = if old(self).pin_enabled() && p == BUTTON_MIDDLE {
                old(self).spec_toggle_pin()
            } else {
                (*old(self), seq![])
            };
            let (t2, b2) = if !t1.pin_state && !t1.hovering {
                t1.spec_set_ts_dir(TransitionDirection::Backward)
            } else {
                (t1, seq![])
            };
            assert(s1 == t1);
            assert(after1 == dbg + b1);
            assert(after2 == dbg + b1 + b2);
            assert((dbg + b1) + b2 == dbg + b1 + b2);
            if t2.pressing == Some(p) {
                assert(acts@ == dbg + b1 + b2.push(MouseAction::Emit(MouseEventKind::Release(p))));
            }
        }
        acts
    }

    /// The pointer entered the widget.
    pub fn hover_enter(&mut self) -> (r: Vec<MouseAction>)
        ensures
            (*final(self), r@) == old(self).spec_hover_enter(),
    {
        let mut acts = Vec::new();
        self.hovering = true;
        if !self.pin_state {
            self.set_ts_dir(TransitionDirection::Forward, &mut acts);
        }
        acts.push(MouseAction::Emit(MouseEventKind::Enter));
        proof {
            assert(acts@ == old(self).spec_hover_enter().1);
        }
        acts
    }

    /// The pointer moved over the widget.
    pub fn hover_motion(&mut self) -> (r: Vec<MouseAction>)
        ensures
            *final(self) == *old(self),
            r@ == seq![MouseAction::Emit(MouseEventKind::Motion)],
    {
        let mut acts = Vec::new();
        acts.push(MouseAction::Emit(MouseEventKind::Motion));
        acts
    }

    /// The pointer left the widget.
    pub fn hover_leave(&mut self) -> (r: Vec<MouseAction>)
        ensures
            (*final(self), r@) == old(self).spec_hover_leave(),
    {
        let mut acts = Vec::new();
        self.hovering = false;
        if !self.pin_state && self.pressing.is_none() {
            self.set_ts_dir(TransitionDirection::Backward, &mut acts);
        }
        acts.push(MouseAction::Emit(MouseEventKind::Leave));
        proof {
            assert(acts@ == old(self).spec_hover_leave().1);
        }
        acts
    }
}

/// Toggling the pin twice leaves the pin as it was.
pub proof fn lemma_toggle_pin_twice(s: MouseState)
    requires
        s.pin_enabled(),
    ensures
        s.spec_toggle_pin().0.spec_toggle_pin().0.pin_state == s.pin_state,
        s.spec_toggle_pin().0.pin_state == !s.pin_state,
{
}

/// Pinning an unpinned widget slides it in and reports the pin.
pub proof fn lemma_pin_slides_in(s: MouseState)
    requires
        s.pin_enabled(),
        !s.pin_state,
    ensures
        s.spec_set_pin(true).0.pin_state,
        s.spec_set_pin(true).1 == seq![
            MouseAction::SetDirection(TransitionDirection::Forward),
            MouseAction::Emit(MouseEventKind::Pin),
        ],
{
}

/// Unpinning a widget that is neither hovered, pressed nor popped slides it out.
pub proof fn lemma_unpin_slides_out(s: MouseState)
    requires
        s.pin_enabled(),
        s.pin_state,
        !s.hovering,
        s.pressing is None,
        s.pop_state is None,
    ensures
        !s.spec_set_pin(false).0.pin_state,
        s.spec_set_pin(false).1 == seq![
            MouseAction::SetDirection(TransitionDirection::Backward),
            MouseAction::Emit(MouseEventKind::Unpin),
        ],
{
}

/// Only the latest pop counts: after a pop, its own timer can slide the
/// widget out, and a timer with any other ticket changes nothing.
pub proof fn lemma_only_latest_pop_counts(s: MouseState, other: u64)
    requires
        s.pop_enabled(),
        other != s.next_pop_ticket(),
    ensures
        s.spec_pop().0.pop_state == Some(s.next_pop_ticket()),
        s.spec_pop().0.spec_pop_timeout(other) == (s.spec_pop().0, Seq::<MouseAction>::empty()),
        !s.hovering && s.pressing is None && !s.pin_state ==> s.spec_pop().0.spec_pop_timeout(
            s.next_pop_ticket(),
        ).1 == seq![
            MouseAction::SetDirection(TransitionDirection::Backward),
            MouseAction::Emit(MouseEventKind::Unpop),
        ],
{
}

/// Any turn of the transition cancels a pending pop: after the pointer
/// enters an unpinned widget, no pop timer has an effect.
pub proof fn lemma_enter_cancels_pop(s: MouseState, ticket: u64)
    requires
        !s.pin_state,
    ensures
        s.spec_hover_enter().0.pop_state is None,
        s.spec_hover_enter().0.spec_pop_timeout(ticket).1 == Seq::<MouseAction>::empty(),
{
}

/// Pressing and releasing the same (non-middle) button reports both and
/// leaves no button pressed.
pub proof fn lemma_press_release(s: MouseState, p: u32)
    requires
        s.pressing is None,
        p != BUTTON_MIDDLE,
        !s.mouse_debug,
    ensures
        s.spec_press(p).0.pressing == Some(p),
        s.spec_unpress(p).0.pressing is None,
        s.spec_press(p).0.spec_unpress(p).0.pressing is None,
        s.spec_press(p).1 == seq![MouseAction::Emit(MouseEventKind::Press(p))],
        s.spec_press(p).0.spec_unpress(p).1.last() == MouseAction::Emit(MouseEventKind::Release(p)),
{
    let t = s.spec_press(p).0;
    let (s2, a2) = if !t.pin_state && !t.hovering {
        t.spec_set_ts_dir(TransitionDirection::Backward)
    } else {
        (t, seq![])
    };
    assert(s2.pressing == Some(p));
}

/// Leaving an unpinned, unpressed widget slides it out.
pub proof fn lemma_leave_slides_out(s: MouseState)
    requires
        !s.pin_state,
        s.pressing is None,
    ensures
        !s.spec_hover_leave().0.hovering,
        s.spec_hover_leave().1 == seq![
            MouseAction::SetDirection(TransitionDirection::Backward),
            MouseAction::Emit(MouseEventKind::Leave),
        ],
{
}


/// Whether the actions turn the widget's transition towards `dir`.
pub open spec fn turns(acts: Seq<MouseAction>, dir: TransitionDirection) -> bool {
    acts.contains(MouseAction::SetDirection(dir))
}

/// Releasing a button slides the widget out exactly when, after the release
/// (and the pin toggle of a middle click), it is neither pinned nor under
/// the pointer: a release never slides out a widget the pointer is over.
/// The release is reported exactly when that button was the one pressed,
/// and then no button is left pressed; the pointer stays where it was.
pub proof fn lemma_release_slides_out_only_away_from_pointer(s: MouseState, p: u32)
    ensures
        turns(s.spec_unpress(p).1, TransitionDirection::Backward) <==> (!s.spec_unpress(p).0.pin_state
            && !s.hovering),
        s.hovering ==> !turns(s.spec_unpress(p).1, TransitionDirection::Backward),
        s.spec_unpress(p).0.pin_state == if s.pin_enabled() && p == BUTTON_MIDDLE {
            !s.pin_state
        } else {
            s.pin_state
        },
        s.spec_unpress(p).0.hovering == s.hovering,
        s.spec_unpress(p).1.contains(MouseAction::Emit(MouseEventKind::Release(p))) <==> s.pressing
            == Some(p),
        s.spec_unpress(p).0.pressing == if s.pressing == Some(p) {
            None
        } else {
            s.pressing
        },
{
    broadcast use vstd::seq_lib::group_seq_properties;

    let back = MouseAction::SetDirection(TransitionDirection::Backward);
    let rel = MouseAction::Emit(MouseEventKind::Release(p));
    let dbg: Seq<MouseAction> = if s.mouse_debug {
        seq![MouseAction::DebugRelease(p)]
    } else {
        seq![]
    };
    let (s1, a1) = if s.pin_enabled() && p == BUTTON_MIDDLE {
        s.spec_toggle_pin()
    } else {
        (s, seq![])
    };
    let (s2, a2) = if !s1.pin_state && !s1.hovering {
        s1.spec_set_ts_dir(TransitionDirection::Backward)
    } else {
        (s1, seq![])
    };
    assert(!dbg.contains(back) && !dbg.contains(rel));
    assert(!a1.contains(rel));
    assert(a1.contains(back) ==> !s.hovering && !s1.pin_state) by {
        if a1.contains(back) {
            let i = choose|i: int| 0 <= i < a1.len() && a1[i] == back;
        }
    }
    assert(!a2.contains(rel));
    assert(a2.contains(back) <==> (!s1.pin_state && !s1.hovering)) by {
        if !s1.pin_state && !s1.hovering {
            assert(a2[0] == back);
        }
    }
    let all = dbg + a1 + a2;
    assert(all.contains(back) <==> (dbg.contains(back) || a1.contains(back) || a2.contains(back))) by {
        if all.contains(back) {
            let i = choose|i: int| 0 <= i < all.len() && all[i] == back;
            if i < dbg.len() {
                assert(dbg[i] == back);
            } else if i < dbg.len() + a1.len() {
                assert(a1[i - dbg.len()] == back);
            } else {
                assert(a2[i - dbg.len() - a1.len()] == back);
            }
        }
        if a1.contains(back) {
            let i = choose|i: int| 0 <= i < a1.len() && a1[i] == back;
            assert(all[dbg.len() + i] == back);
        }
        if a2.contains(back) {
            let i = choose|i: int| 0 <= i < a2.len() && a2[i] == back;
            assert(all[dbg.len() + a1.len() + i] == back);
        }
    }
    assert(!all.contains(rel)) by {
        if all.contains(rel) {
            let i = choose|i: int| 0 <= i < all.len() && all[i] == rel;
            if i < dbg.len() {
                assert(dbg[i] == rel);
            } else if i < dbg.len() + a1.len() {
                assert(a1[i - dbg.len()] == rel);
            } else {
                assert(a2[i - dbg.len() - a1.len()] == rel);
            }
        }
    }
    if s2.pressing == Some(p) {
        assert(dbg + a1 + a2.push(rel) == all.push(rel));
        assert(all.push(rel)[all.len() as int] == rel);
        assert(all.push(rel).contains(back) <==> all.contains(back)) by {
            if all.push(rel).contains(back) {
                let i = choose|i: int| 0 <= i < all.push(rel).len() && all.push(rel)[i] == back;
                assert(all[i] == back);
            }
            if all.contains(back) {
                let i = choose|i: int| 0 <= i < all.len() && all[i] == back;
                assert(all.push(rel)[i] == back);
            }
        }
    }
}

/// Leaving the widget slides it out exactly when it is neither pinned nor
/// pressed: dragging out of it with a button held keeps it shown, and then
/// only the leave is reported. The leave is always reported, last.
pub proof fn lemma_leave_slides_out_only_unpressed(s: MouseState)
    ensures
        turns(s.spec_hover_leave().1, TransitionDirection::Backward) <==> (!s.pin_state && s.pressing is None),
        s.pressing is Some ==> s.spec_hover_leave().1 == seq![MouseAction::Emit(MouseEventKind::Leave)],
        s.spec_hover_leave().1.last() == MouseAction::Emit(MouseEventKind::Leave),
        !s.spec_hover_leave().0.hovering,
        !turns(s.spec_hover_leave().1, TransitionDirection::Forward),
{
    let acts = s.spec_hover_leave().1;
    let back = MouseAction::SetDirection(TransitionDirection::Backward);
    let fwd = MouseAction::SetDirection(TransitionDirection::Forward);
    if !s.pin_state && s.pressing is None {
        assert(acts[0] == back);
        assert(acts =~= seq![back, MouseAction::Emit(MouseEventKind::Leave)]);
    } else {
        assert(acts =~= seq![MouseAction::Emit(MouseEventKind::Leave)]);
    }
    assert(!acts.contains(fwd)) by {
        if acts.contains(fwd) {
            let i = choose|i: int| 0 <= i < acts.len() && acts[i] == fwd;
        }
    }
    assert(!(s.pin_state || s.pressing is Some) ==> acts.contains(back));
    assert((s.pin_state || s.pressing is Some) ==> !acts.contains(back)) by {
        if acts.contains(back) {
            let i = choose|i: int| 0 <= i < acts.len() && acts[i] == back;
        }
    }
}

/// A pop timer slides the widget out exactly when its pop is the pending
/// one and the widget is neither hovered, pressed nor pinned: a pinned
/// widget stays shown when its pop ends. The end of the pop is reported
/// exactly when the timer is the pending pop's.
pub proof fn lemma_pop_end_slides_out_only_idle(s: MouseState, ticket: u64)
    ensures
        turns(s.spec_pop_timeout(ticket).1, TransitionDirection::Backward) <==> (s.pop_state == Some(ticket)
            && !s.hovering && s.pressing is None && !s.pin_state),
        s.pin_state ==> !turns(s.spec_pop_timeout(ticket).1, TransitionDirection::Backward),
        s.spec_pop_timeout(ticket).1.contains(MouseAction::Emit(MouseEventKind::Unpop)) <==> s.pop_state
            == Some(ticket),
        s.spec_pop_timeout(ticket).0.pin_state == s.pin_state,
        s.spec_pop_timeout(ticket).0.hovering == s.hovering,
        s.spec_pop_timeout(ticket).0.pressing == s.pressing,
{
    let acts = s.spec_pop_timeout(ticket).1;
    let back = MouseAction::SetDirection(TransitionDirection::Backward);
    let unpop = MouseAction::Emit(MouseEventKind::Unpop);
    if s.pop_state != Some(ticket) {
        assert(acts =~= Seq::<MouseAction>::empty());
        assert(!acts.contains(back) && !acts.contains(unpop)) by {
            if acts.contains(back) {
                let i = choose|i: int| 0 <= i < acts.len() && acts[i] == back;
            }
            if acts.contains(unpop) {
                let i = choose|i: int| 0 <= i < acts.len() && acts[i] == unpop;
            }
        }
    } else if !s.hovering && s.pressing is None && !s.pin_state {
        assert(acts =~= seq![back, unpop]);
        assert(acts[0] == back && acts[1] == unpop);
    } else {
        assert(acts =~= seq![unpop]);
        assert(acts[0] == unpop);
        assert(!acts.contains(back)) by {
            if acts.contains(back) {
                let i = choose|i: int| 0 <= i < acts.len() && acts[i] == back;
            }
        }
    }
}

/// Unpinning slides the widget out exactly when pinning is on, it was
/// pinned, and it is neither hovered, pressed nor popped: a widget under
/// the pointer stays shown when unpinned, and then only the unpin is
/// reported. Pinning never slides a widget out.
pub proof fn lemma_unpin_slides_out_only_idle(s: MouseState)
    ensures
        turns(s.spec_set_pin(false).1, TransitionDirection::Backward) <==> (s.pin_enabled() && s.pin_state
            && !s.hovering && s.pressing is None && s.pop_state is None),
        s.pin_enabled() && s.pin_state && s.hovering ==> s.spec_set_pin(false).1 == seq![
            MouseAction::Emit(MouseEventKind::Unpin),
        ],
        !turns(s.spec_set_pin(true).1, TransitionDirection::Backward),
        s.pin_enabled() ==> !s.spec_set_pin(false).0.pin_state && s.spec_set_pin(true).0.pin_state,
{
    let back = MouseAction::SetDirection(TransitionDirection::Backward);
    let fwd = MouseAction::SetDirection(TransitionDirection::Forward);
    let a = s.spec_set_pin(false).1;
    let b = s.spec_set_pin(true).1;
    if !s.pin_enabled() || !s.pin_state {
        assert(a =~= Seq::<MouseAction>::empty());
    } else if !s.hovering && s.pressing is None && s.pop_state is None {
        assert(a =~= seq![back, MouseAction::Emit(MouseEventKind::Unpin)]);
        assert(a[0] == back);
    } else {
        assert(a =~= seq![MouseAction::Emit(MouseEventKind::Unpin)]);
    }
    assert(!(s.pin_enabled() && s.pin_state && !s.hovering && s.pressing is None && s.pop_state is None)
        ==> !a.contains(back)) by {
        if a.contains(back) {
            let i = choose|i: int| 0 <= i < a.len() && a[i] == back;
        }
    }
    if s.pin_enabled() && !s.pin_state {
        assert(b =~= seq![fwd, MouseAction::Emit(MouseEventKind::Pin)]);
    } else {
        assert(b =~= Seq::<MouseAction>::empty());
    }
    assert(!b.contains(back)) by {
        if b.contains(back) {
            let i = choose|i: int| 0 <= i < b.len() && b[i] == back;
        }
    }
}

/// Entering the widget never slides it out, and slides it in exactly when
/// it is not pinned (a pinned widget is shown already).
pub proof fn lemma_enter_slides_in_unless_pinned(s: MouseState)
    ensures
        !turns(s.spec_hover_enter().1, TransitionDirection::Backward),
        turns(s.spec_hover_enter().1, TransitionDirection::Forward) <==> !s.pin_state,
        s.spec_hover_enter().0.hovering,
{
    let acts = s.spec_hover_enter().1;
    let back = MouseAction::SetDirection(TransitionDirection::Backward);
    let fwd = MouseAction::SetDirection(TransitionDirection::Forward);
    if !s.pin_state {
        assert(acts =~= seq![fwd, MouseAction::Emit(MouseEventKind::Enter)]);
        assert(acts[0] == fwd);
    } else {
        assert(acts =~= seq![MouseAction::Emit(MouseEventKind::Enter)]);
    }
    assert(!acts.contains(back)) by {
        if acts.contains(back) {
            let i = choose|i: int| 0 <= i < acts.len() && acts[i] == back;
        }
    }
    assert(s.pin_state ==> !acts.contains(fwd)) by {
        if s.pin_state && acts.contains(fwd) {
            let i = choose|i: int| 0 <= i < acts.len() && acts[i] == fwd;
        }
    }
}

/// Pressing a button never moves the widget: it reports the press when no
/// button was held, and keeps the first button held.
pub proof fn lemma_press_moves_nothing(s: MouseState, p: u32)
    ensures
        !turns(s.spec_press(p).1, TransitionDirection::Backward),
        !turns(s.spec_press(p).1, TransitionDirection::Forward),
        s.spec_press(p).0.pressing == if s.pressing is None {
            Some(p)
        } else {
            s.pressing
        },
        s.spec_press(p).0.pin_state == s.pin_state,
        s.spec_press(p).0.hovering == s.hovering,
{
    let acts = s.spec_press(p).1;
    let back = MouseAction::SetDirection(TransitionDirection::Backward);
    let fwd = MouseAction::SetDirection(TransitionDirection::Forward);
    assert(!acts.contains(back) && !acts.contains(fwd)) by {
        if acts.contains(back) {
            let i = choose|i: int| 0 <= i < acts.len() && acts[i] == back;
            if s.mouse_debug && i == 0 {
            }
        }
        if acts.contains(fwd) {
            let i = choose|i: int| 0 <= i < acts.len() && acts[i] == fwd;
        }
    }
}

/// A pop (when popping is on) slides the widget in, never out, starts the
/// timer of a new ticket that becomes the pending pop, and reports the pop;
/// with popping off it does nothing.
pub proof fn lemma_pop_slides_in(s: MouseState)
    ensures
        s.pop_enabled() ==> {
            &&& turns(s.spec_pop().1, TransitionDirection::Forward)
            &&& !turns(s.spec_pop().1, TransitionDirection::Backward)
            &&& s.spec_pop().1.contains(MouseAction::StartPopTimer(s.next_pop_ticket()))
            &&& s.spec_pop().1.contains(MouseAction::Emit(MouseEventKind::Pop))
            &&& s.spec_pop().0.pop_state == Some(s.next_pop_ticket())
            &&& s.spec_pop().0.pin_state == s.pin_state
            &&& s.spec_pop().0.hovering == s.hovering
        },
        !s.pop_enabled() ==> s.spec_pop() == (s, Seq::<MouseAction>::empty()),
{
    if s.pop_enabled() {
        let acts = s.spec_pop().1;
        let back = MouseAction::SetDirection(TransitionDirection::Backward);
        assert(acts =~= seq![
            MouseAction::SetDirection(TransitionDirection::Forward),
            MouseAction::StartPopTimer(s.next_pop_ticket()),
            MouseAction::Emit(MouseEventKind::Pop),
        ]);
        assert(acts[0] == MouseAction::SetDirection(TransitionDirection::Forward));
        assert(acts[1] == MouseAction::StartPopTimer(s.next_pop_ticket()));
        assert(acts[2] == MouseAction::Emit(MouseEventKind::Pop));
        assert(!acts.contains(back)) by {
            if acts.contains(back) {
                let i = choose|i: int| 0 <= i < acts.len() && acts[i] == back;
            }
        }
    }
}

} // verus!
