use vstd::prelude::*;

verus! {

/// A pointer event on a box of widgets, with the widget (by index) found
/// under the pointer for `Enter` and `Motion`.
#[derive(Debug, Clone, Copy, PartialEq, Eq, Structural)]
pub enum BoxPointerEvent {
    Enter(Option<usize>),
    Motion(Option<usize>),
    Leave,
    /// A press or a release, which the box passes over.
    Other,
}

/// What the box does in answer: tell a widget that the pointer entered it,
/// moved over it or left it; or redraw the box.
#[derive(Debug, Clone, Copy, PartialEq, Eq, Structural)]
pub enum WidgetCall {
    Enter(usize),
    Motion(usize),
    Leave(usize),
    Redraw,
}

/// The calls for the pointer being over `found` (or over no widget) when
/// `last` was the widget it was over before.
pub open spec fn over_calls(last: Option<usize>, found: Option<usize>) -> Seq<WidgetCall> {
    match (found, last) {
        (Some(w), Some(l)) => if l == w {
            seq![WidgetCall::Motion(w)]
        } else {
            seq![WidgetCall::Leave(l), WidgetCall::Enter(w)]
        },
        (Some(w), None) => seq![WidgetCall::Enter(w)],
        (None, Some(l)) => seq![WidgetCall::Leave(l)],
        (None, None) => Seq::empty(),
    }
}

/// One step of the box's pointer tracking: the widget the pointer is over
/// afterwards, and the calls to make, in order. Entering the box also
/// redraws it; leaving the box forgets the widget (without telling it) and
/// redraws.
pub open spec fn hover_step(last: Option<usize>, e: BoxPointerEvent) -> (Option<usize>, Seq<WidgetCall>) {
    match e {
        BoxPointerEvent::Enter(found) => (found, over_calls(last, found).push(WidgetCall::Redraw)),
        BoxPointerEvent::Motion(found) => (found, over_calls(last, found)),
        BoxPointerEvent::Leave => (None, seq![WidgetCall::Redraw]),
        BoxPointerEvent::Other => (last, Seq::empty()),
    }
}

/// Which widget of a box the pointer was last over.
pub struct BoxHover {
    pub last_widget: Option<usize>,
}

impl BoxHover {
    pub fn new() -> (r: Self)
        ensures
            r.last_widget is None,
    {
        BoxHover { last_widget: None }
    }

    /// Takes in a pointer event and returns the calls to make, in order.
    pub fn step(&mut self, e: BoxPointerEvent) -> (calls: Vec<WidgetCall>)
        ensures
            (final(self).last_widget, calls@) == hover_step(old(self).last_widget, e),
    {
        let mut calls: Vec<WidgetCall> = Vec::new();
        match e {
            BoxPointerEvent::Enter(found) | BoxPointerEvent::Motion(found) => {
                match found {
                    Some(w) => {
                        match self.last_widget {
                            Some(l) => {
                                if l == w {
                                    calls.push(WidgetCall::Motion(w));
                                } else {
                                    calls.push(WidgetCall::Leave(l));
                                    calls.push(WidgetCall::Enter(w));
                                }
                            },
                            None => calls.push(WidgetCall::Enter(w)),
                        }
                        self.last_widget = Some(w);
                    },
                    None => {
                        match self.last_widget {
                            Some(l) => calls.push(WidgetCall::Leave(l)),
                            None => {},
                        }
                        self.last_widget = None;
                    },
                }
                if let BoxPointerEvent::Enter(_) = e {
                    calls.push(WidgetCall::Redraw);
                }
            },
            BoxPointerEvent::Leave => {
                self.last_widget = None;
                calls.push(WidgetCall::Redraw);
            },
            BoxPointerEvent::Other => {},
        }
        proof {
            assert(calls@ =~= hover_step(old(self).last_widget, e).1);
        }
        calls
    }
}

/// The widget a call is addressed to, if any.
pub open spec fn target(c: WidgetCall) -> Option<usize> {
    match c {
        WidgetCall::Enter(w) => Some(w),
        WidgetCall::Motion(w) => Some(w),
        WidgetCall::Leave(w) => Some(w),
        WidgetCall::Redraw => None,
    }
}

/// A widget is told that the pointer left it only when it was the one the
/// pointer was over; and a widget that the pointer moves over without
/// entering it is the one it was over already.
pub proof fn lemma_leave_and_motion_go_to_last(last: Option<usize>, e: BoxPointerEvent, k: int)
    requires
        0 <= k < hover_step(last, e).1.len(),
    ensures
        hover_step(last, e).1[k] matches WidgetCall::Leave(w) ==> last == Some(w),
        hover_step(last, e).1[k] matches WidgetCall::Motion(w) ==> last == Some(w),
{
}

/// After a step, the widget the pointer is over is the last widget named in
/// the calls, and was told `Enter` or `Motion`; when no widget is under the
/// pointer, no widget is named after the last `Leave`.
pub proof fn lemma_last_call_names_current(last: Option<usize>, e: BoxPointerEvent)
    requires
        e !is Other,
    ensures
        ({
            let (now, calls) = hover_step(last, e);
            let named = calls.filter(|c: WidgetCall| target(c) is Some);
            match now {
                Some(w) => named.len() > 0 && (named.last() == WidgetCall::Enter(w) || named.last()
                    == WidgetCall::Motion(w)),
                None => named.len() == 0 || named.last() matches WidgetCall::Leave(_),
            }
        }),
{
    let (now, calls) = hover_step(last, e);
    let f = |c: WidgetCall| target(c) is Some;
    reveal_with_fuel(Seq::filter, 4);
    assert(Seq::<WidgetCall>::empty().filter(f) =~= Seq::<WidgetCall>::empty());
}

} // verus!
