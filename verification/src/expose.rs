use vstd::prelude::*;
use std::rc::Rc;

verus! {

/// A second handle on the same shared value, by `Rc::clone`.
///
/// Trusted: `Rc::clone` makes another pointer to the same allocation, so
/// the handle returned holds the value that `rc` holds.
#[verifier::external_body]
fn share<F: ?Sized>(rc: &Rc<F>) -> (r: Rc<F>)
    ensures
        r == *rc,
{
    Rc::clone(rc)
}

/// What a box widget hands out: the function that asks for its redraw.
pub struct BoxExpose<F: ?Sized> {
    pub redraw_func: Rc<F>,
}

impl<F: ?Sized> BoxExpose<F> {
    pub fn new(redraw_func: Rc<F>) -> (r: Self)
        ensures
            r.redraw_func == redraw_func,
    {
        BoxExpose { redraw_func }
    }

    /// A handle on the redraw function.
    pub fn update_func(&self) -> (r: Rc<F>)
        ensures
            r == self.redraw_func,
    {
        share(&self.redraw_func)
    }
}

} // verus!
